use vstd::prelude::*;
use std::collections::HashMap;
use crate::buffer::replacer::{LruKReplacer, eviction_key, key_lt, record};

verus! {

broadcast use vstd::std_specs::hash::group_hash_axioms;

/// The page id that no page has.
pub const INVALID_PAGE_ID: usize = 0;

/// How many accesses of a frame the replacer weighs.
pub const REPLACER_K: usize = 2;

/// Why the buffer pool refused a request.
#[derive(Debug, PartialEq, Eq)]
pub enum BufferPoolError {
    /// the page is in use
    PagePinned(usize),
    /// every frame holds a page that is in use
    NoAvailableFrame,
}

/// The bookkeeping of one frame: the page it holds, how many users hold it
/// and whether its data differs from the disk.
#[derive(Debug, PartialEq, Eq)]
pub struct FrameMeta {
    pub page_id: Option<usize>,
    pub pin_count: usize,
    pub is_dirty: bool,
}

impl FrameMeta {
    /// An empty frame.
    pub open spec fn is_reset(&self) -> bool {
        &&& self.page_id is None
        &&& self.pin_count == 0
        &&& !self.is_dirty
    }

    /// Forgets the page the frame held.
    pub fn reset(&mut self)
        ensures
            final(self).is_reset(),
    {
        self.page_id = None;
        self.pin_count = 0;
        self.is_dirty = false;
    }
}

/// The decisions of the buffer pool: which frame holds which page, who
/// holds each frame, which frames are free and which one to evict. Loading
/// and writing page data is left to the caller, between the steps below.
pub struct BufferPoolState {
    /// page id -> frame id
    pub page_table: HashMap<usize, usize>,
    pub frame_metas: Vec<FrameMeta>,
    /// frames that hold no page, taken from the back
    pub free_list: Vec<usize>,
    pub replacer: LruKReplacer,
    pub next_page_id: usize,
}

/// `b` follows `a`: as many frames, and the page-id counter not moved back.
pub open spec fn keeps_pool(a: BufferPoolState, b: BufferPoolState) -> bool {
    &&& b.frames() == a.frames()
    &&& a.next_page_id <= b.next_page_id
}

/// Across any run of the pool's operations, each of which keeps the pool
/// (as each one's contract states), the number of frames never changes and
/// the page-id counter never goes back; a page id that `new_page` hands out
/// at step `i` is below every one handed out later, so ids are distinct and
/// increasing.
pub proof fn lemma_pool_run(states: Seq<BufferPoolState>, i: int, j: int)
    requires
        forall|k: int| 0 <= k < states.len() - 1 ==> #[trigger] keeps_pool(states[k], states[k + 1]),
        0 <= i <= j < states.len(),
    ensures
        states[j].frames() == states[i].frames(),
        states[i].next_page_id <= states[j].next_page_id,
        i < j && states[i + 1].next_page_id == states[i].next_page_id + 1 ==> states[i].next_page_id < states[j].next_page_id,
    decreases j - i,
{
    if i < j {
        lemma_pool_run(states, i + 1, j);
        assert(keeps_pool(states[i], states[i + 1]));
    }
}

impl BufferPoolState {
    pub open spec fn frames(&self) -> nat {
        self.frame_metas@.len()
    }

    /// The frame that holds page `p`, if one does.
    pub open spec fn frame_of(&self, p: usize) -> Option<usize> {
        if self.page_table@.contains_key(p) {
            Some(self.page_table@[p])
        } else {
            None
        }
    }

    /// The frame `f` is on the free list.
    pub open spec fn is_free(&self, f: usize) -> bool {
        self.free_list@.contains(f)
    }

    /// The invariant: the page table and the frames agree on which page each
    /// frame holds; a frame that holds a page is tracked by the replacer,
    /// which may evict it exactly when nobody holds it; a frame that holds
    /// no page is clean, unpinned and untracked; the free list holds
    /// distinct empty frames.
    pub open spec fn wf(&self) -> bool {
        &&& self.replacer.wf()
        &&& self.replacer.capacity() == self.frames()
        &&& self.replacer.k() == REPLACER_K
        &&& self.next_page_id > INVALID_PAGE_ID
        &&& forall|p: usize| #[trigger] self.page_table@.contains_key(p) ==> {
            let f = self.page_table@[p];
            &&& f < self.frames()
            &&& self.frame_metas@[f as int].page_id == Some(p)
        }
        &&& forall|f: int| 0 <= f < self.frames() ==> {
            let m = #[trigger] self.frame_metas@[f];
            match m.page_id {
                Some(p) => {
                    &&& self.page_table@.contains_key(p)
                    &&& self.page_table@[p] == f
                    &&& self.replacer.node(f) is Some
                    &&& (self.replacer.is_evictable(f) <==> m.pin_count == 0)
                },
                None => {
                    &&& m.is_reset()
                    &&& self.replacer.node(f) is None
                },
            }
        }
        &&& forall|i: int| 0 <= i < self.free_list@.len() ==> {
            let f = #[trigger] self.free_list@[i];
            &&& f < self.frames()
            &&& self.frame_metas@[f as int].page_id is None
        }
        &&& forall|i: int, j: int| 0 <= i < j < self.free_list@.len() ==> self.free_list@[i] != self.free_list@[j]
    }

    /// A pool of `pool_size` empty frames, all free, handed out from frame 0
    /// up.
    pub fn new(pool_size: usize) -> (res: Self)
        ensures
            res.wf(),
            res.frames() == pool_size,
            res.page_table@ == Map::<usize, usize>::empty(),
            res.free_list@ == Seq::new(pool_size as nat, |i: int| (pool_size - 1 - i) as usize),
            forall|f: int| 0 <= f < pool_size ==> (#[trigger] res.frame_metas@[f]).is_reset(),
            res.next_page_id == INVALID_PAGE_ID + 1,
            res.replacer.now() == 0,
    {
        let mut frame_metas: Vec<FrameMeta> = Vec::new();
        let mut i: usize = 0;
        while i < pool_size
            invariant
                i <= pool_size,
                frame_metas@.len() == i,
                forall|f: int| 0 <= f < i ==> (#[trigger] frame_metas@[f]).is_reset(),
            decreases pool_size - i,
        {
            frame_metas.push(FrameMeta { page_id: None, pin_count: 0, is_dirty: false });
            i = i + 1;
        }
        let mut free_list: Vec<usize> = Vec::new();
        let mut j: usize = pool_size;
        while j > 0
            invariant
                j <= pool_size,
                free_list@ == Seq::new((pool_size - j) as nat, |i: int| (pool_size - 1 - i) as usize),
            decreases j,
        {
            j = j - 1;
            free_list.push(j);
            assert(free_list@ =~= Seq::new((pool_size - j) as nat, |i: int| (pool_size - 1 - i) as usize));
        }
        let replacer = LruKReplacer::new(pool_size, REPLACER_K);
        let res = BufferPoolState {
            page_table: HashMap::new(),
            frame_metas,
            free_list,
            replacer,
            next_page_id: INVALID_PAGE_ID + 1,
        };
        proof {
            assert forall|f: int| 0 <= f < res.frames() implies #[trigger] res.replacer.node(f) is None by {
                assert(res.replacer.node(f) is None);
            }
        }
        res
    }

    /// The number of frames.
    pub fn size(&self) -> (res: usize)
        ensures
            res == self.frames(),
    {
        self.frame_metas.len()
    }

    /// A new page id; no page is loaded for it.
    pub fn new_page(&mut self) -> (res: usize)
        requires
            old(self).wf(),
            old(self).next_page_id < usize::MAX,
        ensures
            final(self).wf(),
            keeps_pool(*old(self), *final(self)),
            res == old(self).next_page_id,
            final(self).next_page_id == old(self).next_page_id + 1,
            final(self).page_table@ == old(self).page_table@,
            final(self).frame_metas@ == old(self).frame_metas@,
            final(self).free_list@ == old(self).free_list@,
            final(self).replacer == old(self).replacer,
    {
        let page_id = self.next_page_id;
        self.next_page_id = self.next_page_id + 1;
        page_id
    }

    /// How many users hold page `page_id`, if it is loaded.
    pub fn pin_count(&self, page_id: usize) -> (res: Option<usize>)
        requires
            self.wf(),
        ensures
            res == (match self.frame_of(page_id) {
                Some(f) => Some(self.frame_metas@[f as int].pin_count),
                None => None::<usize>,
            }),
    {
        match self.page_table.get(&page_id) {
            Some(f) => Some(self.frame_metas[*f].pin_count),
            None => None,
        }
    }

    /// Drops page `page_id` from the pool: refused while someone holds it;
    /// its frame, if it had one, becomes free.
    pub fn delete_page(&mut self, page_id: usize) -> (res: Result<(), BufferPoolError>)
        requires
            old(self).wf(),
        ensures
            final(self).wf(),
            keeps_pool(*old(self), *final(self)),
            final(self).next_page_id == old(self).next_page_id,
            match old(self).frame_of(page_id) {
                None => res is Ok && *final(self) == *old(self),
                Some(f) => if old(self).frame_metas@[f as int].pin_count > 0 {
                    &&& res == Err::<(), BufferPoolError>(BufferPoolError::PagePinned(page_id))
                    &&& *final(self) == *old(self)
                } else {
                    &&& res is Ok
                    &&& final(self).page_table@ == old(self).page_table@.remove(page_id)
                    &&& final(self).free_list@ == old(self).free_list@.push(f)
                    &&& final(self).frame_metas@ == old(self).frame_metas@.update(f as int, FrameMeta { page_id: None, pin_count: 0, is_dirty: false })
                    &&& final(self).replacer.node(f as int) is None
                    &&& forall|g: int| g != f ==> #[trigger] final(self).replacer.node(g) == old(self).replacer.node(g)
                },
            },
    {
        let frame_id = match self.page_table.get(&page_id) {
            None => return Ok(()),
            Some(f) => *f,
        };
        if self.frame_metas[frame_id].pin_count > 0 {
            return Err(BufferPoolError::PagePinned(page_id));
        }
        let ghost pre = *self;
        proof {
            assert(pre.frame_metas@[frame_id as int].page_id == Some(page_id));
            if pre.free_list@.contains(frame_id) {
                let i = choose|i: int| 0 <= i < pre.free_list@.len() && pre.free_list@[i] == frame_id;
                assert(pre.frame_metas@[pre.free_list@[i] as int].page_id is None);
            }
        }
        self.replacer.remove(frame_id);
        self.free_list.push(frame_id);
        self.page_table.remove(&page_id);
        self.frame_metas.set(frame_id, FrameMeta { page_id: None, pin_count: 0, is_dirty: false });
        proof {
            self.lemma_wf_after_frame_change(pre, frame_id);
        }
        Ok(())
    }

    /// Pins page `page_id` if it is loaded: one more user, an access
    /// recorded, and the frame no longer evictable.
    pub fn pin_loaded_page(&mut self, page_id: usize) -> (res: Option<usize>)
        requires
            old(self).wf(),
            old(self).replacer.now() < usize::MAX,
            old(self).frame_of(page_id) matches Some(f) ==> old(self).frame_metas@[f as int].pin_count < usize::MAX,
        ensures
            final(self).wf(),
            keeps_pool(*old(self), *final(self)),
            final(self).next_page_id == old(self).next_page_id,
            res == old(self).frame_of(page_id),
            final(self).page_table@ == old(self).page_table@,
            final(self).free_list@ == old(self).free_list@,
            res is None ==> *final(self) == *old(self),
            res matches Some(f) ==> {
                let m = old(self).frame_metas@[f as int];
                &&& final(self).frame_metas@ == old(self).frame_metas@.update(f as int, FrameMeta { pin_count: (m.pin_count + 1) as usize, ..m })
                &&& final(self).replacer.node(f as int) == Some(crate::buffer::replacer::LruKNodeView {
                    history: record(old(self).replacer.node(f as int)->0.history, final(self).replacer.now() as usize, old(self).replacer.k()),
                    is_evictable: false,
                })
                &&& final(self).replacer.now() == old(self).replacer.now() + 1
                &&& forall|g: int| g != f ==> #[trigger] final(self).replacer.node(g) == old(self).replacer.node(g)
            },
    {
        let frame_id = match self.page_table.get(&page_id) {
            None => return None,
            Some(f) => *f,
        };
        let ghost pre = *self;
        proof {
            assert(pre.frame_metas@[frame_id as int].page_id == Some(page_id));
        }
        let count = self.frame_metas[frame_id].pin_count;
        let dirty = self.frame_metas[frame_id].is_dirty;
        self.frame_metas.set(frame_id, FrameMeta { page_id: Some(page_id), pin_count: count + 1, is_dirty: dirty });
        self.replacer.record_access(frame_id, page_id);
        self.replacer.set_evictable(frame_id, false);
        proof {
            self.lemma_wf_after_frame_change(pre, frame_id);
        }
        Some(frame_id)
    }

    /// One user of frame `frame_id` lets go of it; a writer leaves it
    /// dirty. The last user makes it evictable.
    pub fn unpin(&mut self, frame_id: usize, wrote: bool)
        requires
            old(self).wf(),
            frame_id < old(self).frames(),
            old(self).frame_metas@[frame_id as int].page_id is Some,
            old(self).frame_metas@[frame_id as int].pin_count > 0,
        ensures
            final(self).wf(),
            keeps_pool(*old(self), *final(self)),
            final(self).next_page_id == old(self).next_page_id,
            final(self).page_table@ == old(self).page_table@,
            final(self).free_list@ == old(self).free_list@,
            ({
                let m = old(self).frame_metas@[frame_id as int];
                final(self).frame_metas@ == old(self).frame_metas@.update(
                    frame_id as int,
                    FrameMeta { page_id: m.page_id, pin_count: (m.pin_count - 1) as usize, is_dirty: m.is_dirty || wrote },
                )
            }),
            final(self).replacer.is_evictable(frame_id as int) == (final(self).frame_metas@[frame_id as int].pin_count == 0),
            final(self).replacer.now() == old(self).replacer.now(),
            forall|g: int| g != frame_id ==> #[trigger] final(self).replacer.node(g) == old(self).replacer.node(g),
    {
        let ghost pre = *self;
        let page_id = self.frame_metas[frame_id].page_id;
        let count = self.frame_metas[frame_id].pin_count - 1;
        let dirty = self.frame_metas[frame_id].is_dirty || wrote;
        self.frame_metas.set(frame_id, FrameMeta { page_id, pin_count: count, is_dirty: dirty });
        if count == 0 {
            self.replacer.set_evictable(frame_id, true);
        }
        proof {
            self.lemma_wf_after_frame_change(pre, frame_id);
        }
    }

    /// Takes a frame to load a page into: a free one if there is one, else
    /// the one the replacer evicts, whose page leaves the pool. Gives back
    /// the frame, and the page whose data must be written to disk first
    /// when the evicted frame was dirty.
    pub fn acquire_frame(&mut self) -> (res: Result<(usize, Option<usize>), BufferPoolError>)
        requires
            old(self).wf(),
        ensures
            final(self).wf(),
            keeps_pool(*old(self), *final(self)),
            final(self).next_page_id == old(self).next_page_id,
            old(self).free_list@.len() > 0 ==> {
                let f = old(self).free_list@.last();
                &&& res == Ok::<(usize, Option<usize>), BufferPoolError>((f, None))
                &&& final(self).free_list@ == old(self).free_list@.drop_last()
                &&& final(self).page_table@ == old(self).page_table@
                &&& final(self).frame_metas@ == old(self).frame_metas@
                &&& final(self).replacer == old(self).replacer
            },
            old(self).free_list@.len() == 0 && old(self).replacer.evictable_frames() =~= Set::<int>::empty() ==> {
                &&& res == Err::<(usize, Option<usize>), BufferPoolError>(BufferPoolError::NoAvailableFrame)
                &&& *final(self) == *old(self)
            },
            old(self).free_list@.len() == 0 && !(old(self).replacer.evictable_frames() =~= Set::<int>::empty()) ==> {
                &&& res matches Ok((f, write_back)) && {
                    let m = old(self).frame_metas@[f as int];
                    let victim = m.page_id->0;
                    &&& f < old(self).frames()
                    &&& old(self).replacer.is_evictable(f as int)
                    &&& forall|g: int| g != f && #[trigger] old(self).replacer.is_evictable(g) ==> key_lt(
                        eviction_key(old(self).replacer.node(f as int)->0, old(self).replacer.k()),
                        eviction_key(old(self).replacer.node(g)->0, old(self).replacer.k()),
                    )
                    &&& m.page_id is Some
                    &&& m.pin_count == 0
                    &&& write_back == (if m.is_dirty { Some(victim) } else { None::<usize> })
                    &&& final(self).page_table@ == old(self).page_table@.remove(victim)
                    &&& final(self).frame_metas@ == old(self).frame_metas@.update(f as int, FrameMeta { page_id: None, pin_count: 0, is_dirty: false })
                    &&& final(self).free_list@ == old(self).free_list@
                    &&& final(self).replacer.node(f as int) is None
                    &&& forall|g: int| g != f ==> #[trigger] final(self).replacer.node(g) == old(self).replacer.node(g)
                }
            },
            res matches Ok((f, _)) ==> {
                &&& f < final(self).frames()
                &&& final(self).frame_metas@[f as int].page_id is None
                &&& !final(self).is_free(f)
            },
    {
        let ghost pre = *self;
        if self.free_list.len() > 0 {
            let f = self.free_list.pop().unwrap();
            proof {
                let n = pre.free_list@.len() - 1;
                assert(pre.free_list@[n] == f);
                if self.free_list@.contains(f) {
                    let i = choose|i: int| 0 <= i < self.free_list@.len() && self.free_list@[i] == f;
                    assert(pre.free_list@[i] != pre.free_list@[n]);
                }
            }
            return Ok((f, None));
        }
        let frame_id = match self.replacer.evict() {
            None => return Err(BufferPoolError::NoAvailableFrame),
            Some(f) => f,
        };
        proof {
            assert(pre.replacer.node(frame_id as int) is Some);
            pre.replacer.lemma_tracked_in_range(frame_id as int);
            let m = pre.frame_metas@[frame_id as int];
            assert(m.page_id is Some);
        }
        let victim = match self.frame_metas[frame_id].page_id {
            Some(p) => p,
            None => { proof { assert(false); } 0 },
        };
        let dirty = self.frame_metas[frame_id].is_dirty;
        self.page_table.remove(&victim);
        self.frame_metas.set(frame_id, FrameMeta { page_id: None, pin_count: 0, is_dirty: false });
        proof {
            self.lemma_wf_after_frame_change(pre, frame_id);
        }
        let write_back = if dirty { Some(victim) } else { None };
        Ok((frame_id, write_back))
    }

    /// Puts back the page that `acquire_frame` evicted from `frame_id` when
    /// writing its data out failed: held again by the frame, dirty and
    /// evictable.
    pub fn restore_victim(&mut self, frame_id: usize, page_id: usize)
        requires
            old(self).wf(),
            frame_id < old(self).frames(),
            old(self).frame_metas@[frame_id as int].page_id is None,
            !old(self).is_free(frame_id),
            old(self).frame_of(page_id) is None,
            old(self).replacer.now() < usize::MAX,
        ensures
            final(self).wf(),
            keeps_pool(*old(self), *final(self)),
            final(self).next_page_id == old(self).next_page_id,
            final(self).page_table@ == old(self).page_table@.insert(page_id, frame_id),
            final(self).free_list@ == old(self).free_list@,
            final(self).frame_metas@ == old(self).frame_metas@.update(frame_id as int, FrameMeta { page_id: Some(page_id), pin_count: 0, is_dirty: true }),
            final(self).replacer.is_evictable(frame_id as int),
            forall|g: int| g != frame_id ==> #[trigger] final(self).replacer.node(g) == old(self).replacer.node(g),
    {
        self.install(frame_id, page_id, 0, true);
    }

    /// Records that page `page_id` has been loaded into the acquired frame
    /// `frame_id` for one user: clean, pinned once, not evictable.
    pub fn publish_loaded_page(&mut self, page_id: usize, frame_id: usize)
        requires
            old(self).wf(),
            frame_id < old(self).frames(),
            old(self).frame_metas@[frame_id as int].page_id is None,
            !old(self).is_free(frame_id),
            old(self).frame_of(page_id) is None,
            old(self).replacer.now() < usize::MAX,
        ensures
            final(self).wf(),
            keeps_pool(*old(self), *final(self)),
            final(self).next_page_id == old(self).next_page_id,
            final(self).page_table@ == old(self).page_table@.insert(page_id, frame_id),
            final(self).free_list@ == old(self).free_list@,
            final(self).frame_metas@ == old(self).frame_metas@.update(frame_id as int, FrameMeta { page_id: Some(page_id), pin_count: 1, is_dirty: false }),
            !final(self).replacer.is_evictable(frame_id as int),
            final(self).replacer.node(frame_id as int) is Some,
            forall|g: int| g != frame_id ==> #[trigger] final(self).replacer.node(g) == old(self).replacer.node(g),
    {
        self.install(frame_id, page_id, 1, false);
    }

    fn install(&mut self, frame_id: usize, page_id: usize, pins: usize, dirty: bool)
        requires
            old(self).wf(),
            frame_id < old(self).frames(),
            old(self).frame_metas@[frame_id as int].page_id is None,
            !old(self).is_free(frame_id),
            old(self).frame_of(page_id) is None,
            old(self).replacer.now() < usize::MAX,
        ensures
            final(self).wf(),
            final(self).next_page_id == old(self).next_page_id,
            final(self).page_table@ == old(self).page_table@.insert(page_id, frame_id),
            final(self).free_list@ == old(self).free_list@,
            final(self).frame_metas@ == old(self).frame_metas@.update(frame_id as int, FrameMeta { page_id: Some(page_id), pin_count: pins, is_dirty: dirty }),
            final(self).replacer.node(frame_id as int) is Some,
            final(self).replacer.is_evictable(frame_id as int) == (pins == 0),
            forall|g: int| g != frame_id ==> #[trigger] final(self).replacer.node(g) == old(self).replacer.node(g),
    {
        let ghost pre = *self;
        self.page_table.insert(page_id, frame_id);
        self.frame_metas.set(frame_id, FrameMeta { page_id: Some(page_id), pin_count: pins, is_dirty: dirty });
        self.replacer.record_access(frame_id, page_id);
        self.replacer.set_evictable(frame_id, pins == 0);
        proof {
            assert forall|i: int| 0 <= i < self.free_list@.len() implies #[trigger] self.free_list@[i] != frame_id by {
                if self.free_list@[i] == frame_id {
                    assert(pre.free_list@.contains(frame_id));
                }
            }
            self.lemma_wf_after_frame_change(pre, frame_id);
        }
    }

    /// The invariant survives a change confined to frame `f`, its page and
    /// the free list, when the frame itself ends up consistent.
    proof fn lemma_wf_after_frame_change(&self, pre: Self, f: usize)
        requires
            pre.wf(),
            f < pre.frames(),
            self.frame_metas@.len() == pre.frame_metas@.len(),
            self.replacer.wf(),
            self.replacer.capacity() == pre.replacer.capacity(),
            self.replacer.k() == pre.replacer.k(),
            self.next_page_id == pre.next_page_id,
            forall|g: int| g != f ==> #[trigger] self.replacer.node(g) == pre.replacer.node(g),
            forall|g: int| 0 <= g < self.frames() && g != f ==> #[trigger] self.frame_metas@[g] == pre.frame_metas@[g],
            // the page table changes only at the page of `f`, before or after
            forall|p: usize| pre.frame_metas@[f as int].page_id != Some(p) && self.frame_metas@[f as int].page_id != Some(p)
                ==> (#[trigger] self.page_table@.contains_key(p) == pre.page_table@.contains_key(p)
                    && (self.page_table@.contains_key(p) ==> self.page_table@[p] == pre.page_table@[p])),
            match pre.frame_metas@[f as int].page_id {
                Some(p) => self.frame_metas@[f as int].page_id != Some(p) ==> !self.page_table@.contains_key(p),
                None => true,
            },
            match self.frame_metas@[f as int].page_id {
                Some(p) => pre.frame_metas@[f as int].page_id != Some(p) ==> !pre.page_table@.contains_key(p),
                None => true,
            },
            // the frame itself
            match self.frame_metas@[f as int].page_id {
                Some(p) => {
                    &&& self.page_table@.contains_key(p)
                    &&& self.page_table@[p] == f
                    &&& self.replacer.node(f as int) is Some
                    &&& (self.replacer.is_evictable(f as int) <==> self.frame_metas@[f as int].pin_count == 0)
                },
                None => {
                    &&& self.frame_metas@[f as int].is_reset()
                    &&& self.replacer.node(f as int) is None
                },
            },
            // the free list: the old one, possibly with `f` taken off its
            // end or pushed onto it, where `f` is then empty
            ({
                ||| self.free_list@ == pre.free_list@
                ||| (self.free_list@ == pre.free_list@.push(f) && !pre.free_list@.contains(f) && self.frame_metas@[f as int].page_id is None)
                ||| (pre.free_list@.len() > 0 && pre.free_list@.last() == f && self.free_list@ == pre.free_list@.drop_last())
            }),
            forall|i: int| 0 <= i < self.free_list@.len() ==> (#[trigger] self.free_list@[i] == f ==> self.frame_metas@[f as int].page_id is None),
        ensures
            self.wf(),
    {
        assert forall|p: usize| #[trigger] self.page_table@.contains_key(p) implies {
            let g = self.page_table@[p];
            &&& g < self.frames()
            &&& self.frame_metas@[g as int].page_id == Some(p)
        } by {
            if self.frame_metas@[f as int].page_id == Some(p) {
            } else if pre.frame_metas@[f as int].page_id == Some(p) {
            } else {
                let g = pre.page_table@[p];
                if g == f {
                    assert(pre.frame_metas@[f as int].page_id == Some(p));
                }
            }
        }
        assert forall|g: int| 0 <= g < self.frames() implies {
            let m = #[trigger] self.frame_metas@[g];
            match m.page_id {
                Some(p) => {
                    &&& self.page_table@.contains_key(p)
                    &&& self.page_table@[p] == g
                    &&& self.replacer.node(g) is Some
                    &&& (self.replacer.is_evictable(g) <==> m.pin_count == 0)
                },
                None => {
                    &&& m.is_reset()
                    &&& self.replacer.node(g) is None
                },
            }
        } by {
            if g != f {
                assert(self.frame_metas@[g] == pre.frame_metas@[g]);
                let m = pre.frame_metas@[g];
                assert(self.replacer.node(g) == pre.replacer.node(g));
                if let Some(p) = m.page_id {
                    assert(pre.page_table@.contains_key(p));
                    assert(pre.page_table@[p] == g);
                    assert(pre.frame_metas@[f as int].page_id != Some(p));
                    assert(self.frame_metas@[f as int].page_id != Some(p));
                    assert(self.page_table@.contains_key(p) == pre.page_table@.contains_key(p));
                    assert(self.page_table@[p] == g);
                }
            }
        }
        assert forall|i: int| 0 <= i < self.free_list@.len() implies {
            let h = #[trigger] self.free_list@[i];
            &&& h < self.frames()
            &&& self.frame_metas@[h as int].page_id is None
        } by {
            let h = self.free_list@[i];
            if self.free_list@ == pre.free_list@.push(f) && i == pre.free_list@.len() {
            } else {
                assert(pre.free_list@[i] == h);
                if h != f {
                    assert(self.frame_metas@[h as int] == pre.frame_metas@[h as int]);
                }
            }
        }
        assert forall|i: int, j: int| 0 <= i < j < self.free_list@.len() implies self.free_list@[i] != self.free_list@[j] by {
            if self.free_list@ == pre.free_list@.push(f) && j == pre.free_list@.len() {
                assert(pre.free_list@[i] == self.free_list@[i]);
                assert(pre.free_list@.contains(pre.free_list@[i]));
            } else {
                assert(pre.free_list@[i] == self.free_list@[i]);
                assert(pre.free_list@[j] == self.free_list@[j]);
            }
        }
    }
}

} // verus!
