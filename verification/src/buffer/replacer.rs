use vstd::prelude::*;

verus! {

// The LRU-K replacement policy evicts the frame whose backward k-distance is
// the largest: the time elapsed since its k-th most recent access. A frame
// with fewer than k recorded accesses has an infinite backward k-distance;
// among those, the one whose last access is oldest is evicted (classical LRU).

/// What the replacer knows of one frame: its last (at most k) access
/// timestamps, oldest first, and whether it may be evicted.
pub struct LruKNodeView {
    pub history: Seq<usize>,
    pub is_evictable: bool,
}

pub struct LruKNode {
    history: Vec<usize>,
    is_evictable: bool,
}

impl LruKNode {
    pub closed spec fn view(&self) -> LruKNodeView {
        LruKNodeView { history: self.history@, is_evictable: self.is_evictable }
    }

    fn new(k: usize) -> (res: Self)
        ensures
            res.view().history == Seq::<usize>::empty(),
            !res.view().is_evictable,
    {
        LruKNode { history: Vec::with_capacity(k), is_evictable: false }
    }
}

/// The eviction key of a frame: frames with fewer than `k` accesses come
/// first (ordered by their last access), then frames ordered by their k-th
/// most recent access.
pub open spec fn eviction_key(node: LruKNodeView, k: nat) -> (bool, int) {
    if node.history.len() < k {
        (false, node.history.last() as int)
    } else {
        (true, node.history[0] as int)
    }
}

pub open spec fn key_lt(a: (bool, int), b: (bool, int)) -> bool {
    (!a.0 && b.0) || (a.0 == b.0 && a.1 < b.1)
}

/// The LRU-K order in which frames are evicted: a frame evicted before
/// another with fewer than `k` accesses has fewer than `k` accesses too,
/// and its most recent access is older (classical LRU among frames of
/// infinite backward k-distance); a frame with `k` accesses is evicted
/// before another only when that one has `k` accesses too and its k-th most
/// recent access is older (the largest backward k-distance).
pub proof fn lemma_eviction_order(a: LruKNodeView, b: LruKNodeView, k: nat)
    requires
        key_lt(eviction_key(a, k), eviction_key(b, k)),
    ensures
        b.history.len() < k ==> a.history.len() < k && a.history.last() < b.history.last(),
        a.history.len() >= k ==> b.history.len() >= k && a.history[0] < b.history[0],
{
}

/// The history after an access at time `ts`: the newest `k` timestamps.
pub open spec fn record(history: Seq<usize>, ts: usize, k: nat) -> Seq<usize> {
    if history.len() + 1 > k {
        history.drop_first().push(ts)
    } else {
        history.push(ts)
    }
}

pub struct LruKReplacer {
    // slot `f` describes frame `f`; `None` when the frame is not tracked
    nodes: Vec<Option<LruKNode>>,
    current_timestamp: usize,
    // number of evictable frames
    curr_size: usize,
    // number of frames handled by the replacer
    replacer_size: usize,
    k: usize,
}

pub open spec fn opt_view(n: Option<LruKNode>) -> Option<LruKNodeView> {
    match n {
        Some(node) => Some(node.view()),
        None => None,
    }
}

proof fn lemma_set_within(s: Set<int>, cap: nat)
    requires
        forall|x: int| #[trigger] s.contains(x) ==> 0 <= x < cap,
    ensures
        s.finite(),
        s.len() <= cap,
{
    let r = vstd::set_lib::set_int_range(0, cap as int);
    vstd::set_lib::lemma_int_range(0, cap as int);
    assert(s.subset_of(r));
    vstd::set_lib::lemma_len_subset(s, r);
}

impl LruKReplacer {
    /// The frame `f` as the replacer sees it (`None`: not tracked).
    pub closed spec fn node(&self, f: int) -> Option<LruKNodeView> {
        if 0 <= f < self.nodes@.len() {
            opt_view(self.nodes@[f])
        } else {
            None
        }
    }

    pub closed spec fn k(&self) -> nat {
        self.k as nat
    }

    pub closed spec fn capacity(&self) -> nat {
        self.replacer_size as nat
    }

    /// The time of the most recent access.
    pub closed spec fn now(&self) -> nat {
        self.current_timestamp as nat
    }

    /// The frames that may currently be evicted.
    pub open spec fn evictable_frames(&self) -> Set<int> {
        Set::new(
            |f: int|
                0 <= f < self.capacity() && self.node(f) is Some && self.node(f)->0.is_evictable,
        )
    }

    pub open spec fn is_evictable(&self, f: int) -> bool {
        self.node(f) is Some && self.node(f)->0.is_evictable
    }

    spec fn timestamps_ok(&self, f: int) -> bool {
        let h = self.node(f)->0.history;
        &&& 1 <= h.len() <= self.k
        &&& forall|i: int, j: int| 0 <= i < j < h.len() ==> h[i] < h[j]
        &&& forall|i: int| 0 <= i < h.len() ==> 1 <= #[trigger] h[i] <= self.current_timestamp
    }

    /// Well-formedness: every tracked frame has between 1 and k strictly
    /// increasing timestamps, no timestamp is shared by two frames, and
    /// `curr_size` counts the evictable frames.
    pub closed spec fn wf(&self) -> bool {
        &&& self.nodes@.len() == self.replacer_size
        &&& self.k > 0
        &&& forall|f: int| 0 <= f < self.nodes@.len() && #[trigger] self.nodes@[f] is Some
            ==> self.timestamps_ok(f)
        &&& forall|f: int, g: int, i: int, j: int|
            #![trigger self.nodes@[f]->0.history@[i], self.nodes@[g]->0.history@[j]]
            0 <= f < self.nodes@.len() && 0 <= g < self.nodes@.len() && f != g
                && self.nodes@[f] is Some && self.nodes@[g] is Some
                && 0 <= i < self.nodes@[f]->0.history@.len()
                && 0 <= j < self.nodes@[g]->0.history@.len()
                ==> self.nodes@[f]->0.history@[i] != self.nodes@[g]->0.history@[j]
        &&& self.evictable_frames().finite()
        &&& self.curr_size == self.evictable_frames().len()
    }

    proof fn lemma_evictable_finite(&self)
        ensures
            self.evictable_frames().finite(),
            self.evictable_frames().len() <= self.capacity(),
    {
        let r = vstd::set_lib::set_int_range(0, self.capacity() as int);
        vstd::set_lib::lemma_int_range(0, self.capacity() as int);
        assert(self.evictable_frames().subset_of(r));
        vstd::set_lib::lemma_len_subset(self.evictable_frames(), r);
    }

    /// Creates a replacer for `num_frames` frames that keeps the last `k`
    /// accesses of each frame.
    pub fn new(num_frames: usize, k: usize) -> (res: LruKReplacer)
        requires
            k > 0,
        ensures
            res.wf(),
            res.k() == k,
            res.capacity() == num_frames,
            res.now() == 0,
            forall|f: int| #[trigger] res.node(f) is None,
    {
        let mut nodes: Vec<Option<LruKNode>> = Vec::new();
        let mut i: usize = 0;
        while i < num_frames
            invariant
                i <= num_frames,
                nodes@.len() == i,
                forall|f: int| 0 <= f < i ==> #[trigger] nodes@[f] is None,
            decreases num_frames - i,
        {
            nodes.push(None);
            i = i + 1;
        }
        let res = LruKReplacer {
            nodes,
            current_timestamp: 0,
            curr_size: 0,
            replacer_size: num_frames,
            k,
        };
        assert(res.evictable_frames() =~= Set::<int>::empty());
        res
    }

    /// Records an access to `frame_id` at a new timestamp, keeping only the
    /// `k` most recent timestamps. A frame seen for the first time starts
    /// out non-evictable.
    pub fn record_access(&mut self, frame_id: usize, page_id: usize)
        requires
            old(self).wf(),
            frame_id < old(self).capacity(),
            old(self).now() < usize::MAX,
        ensures
            final(self).wf(),
            final(self).k() == old(self).k(),
            final(self).capacity() == old(self).capacity(),
            final(self).now() == old(self).now() + 1,
            final(self).node(frame_id as int) == Some(
                LruKNodeView {
                    history: record(
                        match old(self).node(frame_id as int) {
                            Some(n) => n.history,
                            None => Seq::<usize>::empty(),
                        },
                        final(self).now() as usize,
                        old(self).k(),
                    ),
                    is_evictable: match old(self).node(frame_id as int) {
                        Some(n) => n.is_evictable,
                        None => false,
                    },
                },
            ),
            forall|g: int| g != frame_id ==> #[trigger] final(self).node(g) == old(self).node(g),
    {
        self.current_timestamp = self.current_timestamp + 1;
        let ts = self.current_timestamp;
        let ghost pre = *self;
        let mut slot: Option<LruKNode> = None;
        std::mem::swap(&mut slot, &mut self.nodes[frame_id]);
        let mut node = match slot {
            Some(node) => node,
            None => LruKNode::new(self.k),
        };
        let ghost old_hist = node.history@;
        if node.history.len() >= self.k {
            node.history.remove(0);
        }
        node.history.push(ts);
        assert(node.history@ =~= record(old_hist, ts, self.k as nat));
        self.nodes.set(frame_id, Some(node));
        proof {
            assert forall|g: int| g != frame_id implies #[trigger] self.node(g) == old(self).node(g) by {
                if 0 <= g < self.nodes@.len() {
                    assert(self.nodes@[g] == pre.nodes@[g]);
                }
            }
            assert(self.evictable_frames() =~= old(self).evictable_frames());
            let h = self.nodes@[frame_id as int]->0.history@;
            assert forall|i: int| 0 <= i < h.len() implies 1 <= #[trigger] h[i] <= self.current_timestamp by {
                if i < h.len() - 1 {
                    if old_hist.len() + 1 > self.k {
                        assert(h[i] == old_hist[i + 1]);
                    } else {
                        assert(h[i] == old_hist[i]);
                    }
                }
            }
            assert forall|i: int, j: int| 0 <= i < j < h.len() implies h[i] < h[j] by {
                if old_hist.len() + 1 > self.k {
                    if j < h.len() - 1 {
                        assert(h[i] == old_hist[i + 1] && h[j] == old_hist[j + 1]);
                    } else {
                        assert(h[i] == old_hist[i + 1]);
                    }
                } else {
                    if j < h.len() - 1 {
                        assert(h[i] == old_hist[i] && h[j] == old_hist[j]);
                    } else {
                        assert(h[i] == old_hist[i]);
                    }
                }
            }
            assert forall|f: int| 0 <= f < self.nodes@.len() && #[trigger] self.nodes@[f] is Some
                implies self.timestamps_ok(f) by {
                if f != frame_id {
                    assert(self.nodes@[f] == old(self).nodes@[f]);
                    assert(old(self).timestamps_ok(f));
                }
            }
            assert forall|f: int, g: int, i: int, j: int|
                #![trigger self.nodes@[f]->0.history@[i], self.nodes@[g]->0.history@[j]]
                0 <= f < self.nodes@.len() && 0 <= g < self.nodes@.len() && f != g
                    && self.nodes@[f] is Some && self.nodes@[g] is Some
                    && 0 <= i < self.nodes@[f]->0.history@.len()
                    && 0 <= j < self.nodes@[g]->0.history@.len()
                implies self.nodes@[f]->0.history@[i] != self.nodes@[g]->0.history@[j] by {
                let hf = self.nodes@[f]->0.history@;
                let hg = self.nodes@[g]->0.history@;
                if f == frame_id {
                    assert(old(self).nodes@[g] == self.nodes@[g]);
                    assert(old(self).timestamps_ok(g));
                    assert(hg[j] <= old(self).current_timestamp);
                    if i < hf.len() - 1 {
                        let oi = if old_hist.len() + 1 > self.k { i + 1 } else { i };
                        assert(hf[i] == old_hist[oi]);
                        assert(old(self).nodes@[f] is Some);
                    }
                } else if g == frame_id {
                    assert(old(self).nodes@[f] == self.nodes@[f]);
                    assert(old(self).timestamps_ok(f));
                    assert(hf[i] <= old(self).current_timestamp);
                    if j < hg.len() - 1 {
                        let oj = if old_hist.len() + 1 > self.k { j + 1 } else { j };
                        assert(hg[j] == old_hist[oj]);
                        assert(old(self).nodes@[g] is Some);
                    }
                } else {
                    assert(old(self).nodes@[f] == self.nodes@[f]);
                    assert(old(self).nodes@[g] == self.nodes@[g]);
                }
            }
        }
    }

    /// Marks `frame_id` as evictable or not; the size follows.
    pub fn set_evictable(&mut self, frame_id: usize, evictable: bool)
        requires
            old(self).wf(),
            old(self).node(frame_id as int) is Some,
        ensures
            final(self).wf(),
            final(self).k() == old(self).k(),
            final(self).capacity() == old(self).capacity(),
            final(self).now() == old(self).now(),
            final(self).node(frame_id as int) == Some(
                LruKNodeView { is_evictable: evictable, ..old(self).node(frame_id as int)->0 },
            ),
            forall|g: int| g != frame_id ==> #[trigger] final(self).node(g) == old(self).node(g),
    {
        let ghost pre = *self;
        let mut slot: Option<LruKNode> = None;
        std::mem::swap(&mut slot, &mut self.nodes[frame_id]);
        let mut node = match slot {
            Some(node) => node,
            None => { proof { assert(false); } LruKNode::new(self.k) },
        };
        proof {
            pre.lemma_evictable_finite();
            let fi = frame_id as int;
            if !pre.is_evictable(fi) {
                lemma_set_within(pre.evictable_frames().insert(fi), pre.capacity());
            } else {
                assert(pre.evictable_frames().remove(fi).len() == pre.evictable_frames().len() - 1);
            }
        }
        if node.is_evictable != evictable {
            node.is_evictable = evictable;
            if evictable {
                self.curr_size = self.curr_size + 1;
            } else {
                self.curr_size = self.curr_size - 1;
            }
        }
        self.nodes.set(frame_id, Some(node));
        proof {
            assert forall|g: int| g != frame_id implies #[trigger] self.node(g) == old(self).node(g) by {
                if 0 <= g < self.nodes@.len() {
                    assert(self.nodes@[g] == pre.nodes@[g]);
                }
            }
            let fi = frame_id as int;
            if pre.is_evictable(fi) == evictable {
                assert(self.evictable_frames() =~= pre.evictable_frames());
            } else if evictable {
                assert(self.evictable_frames() =~= pre.evictable_frames().insert(fi));
            } else {
                assert(self.evictable_frames() =~= pre.evictable_frames().remove(fi));
            }
            assert forall|f: int| 0 <= f < self.nodes@.len() && #[trigger] self.nodes@[f] is Some
                implies self.timestamps_ok(f) by {
                assert(pre.nodes@[f] is Some);
                assert(pre.timestamps_ok(f));
            }
            assert forall|f: int, g: int, i: int, j: int|
                #![trigger self.nodes@[f]->0.history@[i], self.nodes@[g]->0.history@[j]]
                0 <= f < self.nodes@.len() && 0 <= g < self.nodes@.len() && f != g
                    && self.nodes@[f] is Some && self.nodes@[g] is Some
                    && 0 <= i < self.nodes@[f]->0.history@.len()
                    && 0 <= j < self.nodes@[g]->0.history@.len()
                implies self.nodes@[f]->0.history@[i] != self.nodes@[g]->0.history@[j] by {
                assert(pre.nodes@[f] is Some && pre.nodes@[g] is Some);
            }
        }
    }

    /// Evicts the frame with the largest backward k-distance among the
    /// evictable frames and stops tracking it; `None` when no frame is
    /// evictable.
    pub fn evict(&mut self) -> (res: Option<usize>)
        requires
            old(self).wf(),
        ensures
            final(self).wf(),
            final(self).k() == old(self).k(),
            final(self).capacity() == old(self).capacity(),
            final(self).now() == old(self).now(),
            res is None <==> old(self).evictable_frames() =~= Set::<int>::empty(),
            res is None ==> *final(self) == *old(self),
            res matches Some(f) ==> {
                &&& old(self).is_evictable(f as int)
                &&& forall|g: int|
                    g != f && #[trigger] old(self).is_evictable(g) ==> key_lt(
                        eviction_key(old(self).node(f as int)->0, old(self).k()),
                        eviction_key(old(self).node(g)->0, old(self).k()),
                    )
                &&& forall|g: int| g != f && #[trigger] old(self).is_evictable(g) ==> {
                    let a = old(self).node(f as int)->0.history;
                    let b = old(self).node(g)->0.history;
                    &&& b.len() < old(self).k() ==> a.len() < old(self).k() && a.last() < b.last()
                    &&& a.len() >= old(self).k() ==> b.len() >= old(self).k() && a[0] < b[0]
                }
                &&& final(self).node(f as int) is None
                &&& forall|g: int| g != f ==> #[trigger] final(self).node(g) == old(self).node(g)
            },
    {
        let ghost pre = *self;
        let mut victim: Option<usize> = None;
        let mut best_full = false;
        let mut best_ts: usize = 0;
        let mut i: usize = 0;
        while i < self.nodes.len()
            invariant
                *self == pre,
                pre.wf(),
                i <= self.nodes@.len(),
                victim is None <==> (forall|g: int| 0 <= g < i ==> !#[trigger] pre.is_evictable(g)),
                victim matches Some(v) ==> {
                    &&& v < i
                    &&& pre.is_evictable(v as int)
                    &&& eviction_key(pre.node(v as int)->0, pre.k()) == (best_full, best_ts as int)
                    &&& forall|g: int|
                        0 <= g < i && g != v && #[trigger] pre.is_evictable(g) ==> key_lt(
                            (best_full, best_ts as int),
                            eviction_key(pre.node(g)->0, pre.k()),
                        )
                },
            decreases self.nodes@.len() - i,
        {
            proof {
                assert(pre.is_evictable(i as int) == (self.nodes@[i as int] is Some
                    && self.nodes@[i as int]->0.is_evictable));
            }
            match &self.nodes[i] {
                Some(node) => {
                    if node.is_evictable {
                        proof { assert(pre.timestamps_ok(i as int)); }
                        let len = node.history.len();
                        let full = !(len < self.k);
                        let ts = if full { node.history[0] } else { node.history[len - 1] };
                        let better = match victim {
                            None => true,
                            Some(_) => (!full && best_full) || (full == best_full && ts < best_ts),
                        };
                        proof {
                            if let Some(v) = victim {
                                // keys of distinct frames never tie
                                let hv = pre.nodes@[v as int]->0.history@;
                                let hi = pre.nodes@[i as int]->0.history@;
                                assert(pre.nodes@[v as int] is Some);
                                assert(pre.nodes@[i as int] is Some);
                                if best_full { assert(hv[0] == best_ts); } else { assert(hv[hv.len() - 1] == best_ts); }
                                if full { assert(hi[0] == ts); } else { assert(hi[hi.len() - 1] == ts); }
                            }
                        }
                        if better {
                            victim = Some(i);
                            best_full = full;
                            best_ts = ts;
                        }
                    }
                },
                None => {},
            }
            i = i + 1;
        }
        match victim {
            Some(frame_id) => {
                proof {
                    pre.lemma_evictable_finite();
                    assert(pre.evictable_frames().contains(frame_id as int));
                    assert(pre.evictable_frames().remove(frame_id as int).len() == pre.evictable_frames().len() - 1);
                }
                proof {
                    assert forall|g: int| g != frame_id && #[trigger] pre.is_evictable(g) implies {
                        let a = pre.node(frame_id as int)->0.history;
                        let b = pre.node(g)->0.history;
                        &&& b.len() < pre.k() ==> a.len() < pre.k() && a.last() < b.last()
                        &&& a.len() >= pre.k() ==> b.len() >= pre.k() && a[0] < b[0]
                    } by {
                        lemma_eviction_order(pre.node(frame_id as int)->0, pre.node(g)->0, pre.k());
                    }
                }
                self.nodes.set(frame_id, None);
                self.curr_size = self.curr_size - 1;
                proof {
                    assert forall|g: int| g != frame_id implies #[trigger] self.node(g) == pre.node(g) by {
                        if 0 <= g < self.nodes@.len() {
                            assert(self.nodes@[g] == pre.nodes@[g]);
                        }
                    }
                    assert(self.evictable_frames() =~= pre.evictable_frames().remove(frame_id as int));
                    assert forall|f: int| 0 <= f < self.nodes@.len() && #[trigger] self.nodes@[f] is Some
                        implies self.timestamps_ok(f) by {
                        assert(pre.nodes@[f] is Some);
                        assert(pre.timestamps_ok(f));
                    }
                    assert forall|f: int, g: int, a: int, b: int|
                        #![trigger self.nodes@[f]->0.history@[a], self.nodes@[g]->0.history@[b]]
                        0 <= f < self.nodes@.len() && 0 <= g < self.nodes@.len() && f != g
                            && self.nodes@[f] is Some && self.nodes@[g] is Some
                            && 0 <= a < self.nodes@[f]->0.history@.len()
                            && 0 <= b < self.nodes@[g]->0.history@.len()
                        implies self.nodes@[f]->0.history@[a] != self.nodes@[g]->0.history@[b] by {
                        assert(pre.nodes@[f] is Some && pre.nodes@[g] is Some);
                    }
                }
                Some(frame_id)
            },
            None => {
                proof {
                    assert forall|f: int| pre.evictable_frames().contains(f) implies false by {
                        assert(pre.is_evictable(f));
                    }
                    assert(pre.evictable_frames() =~= Set::<int>::empty());
                }
                None
            },
        }
    }

    /// Stops tracking `frame_id`, which must be evictable.
    pub fn remove(&mut self, frame_id: usize)
        requires
            old(self).wf(),
            old(self).is_evictable(frame_id as int),
        ensures
            final(self).wf(),
            final(self).k() == old(self).k(),
            final(self).capacity() == old(self).capacity(),
            final(self).now() == old(self).now(),
            final(self).node(frame_id as int) is None,
            forall|g: int| g != frame_id ==> #[trigger] final(self).node(g) == old(self).node(g),
    {
        let ghost pre = *self;
        proof {
            pre.lemma_evictable_finite();
            assert(pre.evictable_frames().contains(frame_id as int));
            assert(pre.evictable_frames().remove(frame_id as int).len() == pre.evictable_frames().len() - 1);
        }
        self.nodes.set(frame_id, None);
        self.curr_size = self.curr_size - 1;
        proof {
            assert forall|g: int| g != frame_id implies #[trigger] self.node(g) == pre.node(g) by {
                if 0 <= g < self.nodes@.len() {
                    assert(self.nodes@[g] == pre.nodes@[g]);
                }
            }
            assert(self.evictable_frames() =~= pre.evictable_frames().remove(frame_id as int));
            assert forall|f: int| 0 <= f < self.nodes@.len() && #[trigger] self.nodes@[f] is Some
                implies self.timestamps_ok(f) by {
                assert(pre.nodes@[f] is Some);
                assert(pre.timestamps_ok(f));
            }
            assert forall|f: int, g: int, a: int, b: int|
                #![trigger self.nodes@[f]->0.history@[a], self.nodes@[g]->0.history@[b]]
                0 <= f < self.nodes@.len() && 0 <= g < self.nodes@.len() && f != g
                    && self.nodes@[f] is Some && self.nodes@[g] is Some
                    && 0 <= a < self.nodes@[f]->0.history@.len()
                    && 0 <= b < self.nodes@[g]->0.history@.len()
                implies self.nodes@[f]->0.history@[a] != self.nodes@[g]->0.history@[b] by {
                assert(pre.nodes@[f] is Some && pre.nodes@[g] is Some);
            }
        }
    }

    /// Only frames below the capacity are tracked.
    pub proof fn lemma_tracked_in_range(&self, f: int)
        requires
            self.wf(),
        ensures
            self.node(f) is Some ==> 0 <= f < self.capacity(),
    {
    }

    /// The number of evictable frames.
    pub fn size(&self) -> (res: usize)
        requires
            self.wf(),
        ensures
            res == self.evictable_frames().len(),
    {
        self.curr_size
    }

    /// The time of the most recent access; each access moves it on by one.
    pub fn current_timestamp(&self) -> (res: usize)
        ensures
            res == self.now(),
    {
        self.current_timestamp
    }
}

} // verus!
