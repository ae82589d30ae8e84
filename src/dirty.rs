use std::collections::HashMap;
use std::collections::VecDeque;
use vstd::prelude::*;

verus! {

broadcast use vstd::std_specs::hash::group_hash_axioms;

/// Where a chunk stands with respect to its collider.
#[derive(Clone, Copy, Debug, PartialEq, Eq, Structural)]
pub enum Phase {
    /// The collider matches the latest mesh.
    Clean,
    /// Waiting in the queue for a rebuild.
    Dirty,
    /// Taken by the synchronizer, no newer mesh seen since.
    InProgress,
    /// Taken by the synchronizer, and a newer mesh arrived meanwhile.
    InProgressRemarked,
}

/// How a collider rebuild ended.
#[derive(Clone, Copy, Debug, PartialEq, Eq, Structural)]
pub enum RebuildOutcome {
    /// The chunk's collider now matches the mesh that was taken, or the
    /// chunk needs none.
    Finished,
    /// Something the rebuild needs is not available yet; retry later.
    Deferred,
}

/// The abstract state of a tracker: the phase of each known chunk (an
/// unknown chunk is clean) and the queue of chunks waiting for a rebuild.
pub struct TrackerState {
    pub phases: Map<u64, Phase>,
    pub queue: Seq<u64>,
}

impl TrackerState {
    /// The phase of `chunk`; a chunk never seen is clean.
    pub open spec fn phase(self, chunk: u64) -> Phase {
        if self.phases.contains_key(chunk) {
            self.phases[chunk]
        } else {
            Phase::Clean
        }
    }

    /// The queue holds each dirty chunk once, and nothing else.
    pub open spec fn wf(self) -> bool {
        &&& self.queue.no_duplicates()
        &&& forall|i: int| 0 <= i < self.queue.len() ==> self.phase(#[trigger] self.queue[i]) == Phase::Dirty
        &&& forall|c: u64| #[trigger] self.phase(c) == Phase::Dirty ==> self.queue.contains(c)
    }

    /// The state after a mesh-update (or creation) notification for `chunk`.
    pub open spec fn marked(self, chunk: u64) -> TrackerState {
        match self.phase(chunk) {
            Phase::Clean => TrackerState {
                phases: self.phases.insert(chunk, Phase::Dirty),
                queue: self.queue.push(chunk),
            },
            Phase::InProgress => TrackerState {
                phases: self.phases.insert(chunk, Phase::InProgressRemarked),
                queue: self.queue,
            },
            _ => self,
        }
    }

    /// The state after the synchronizer takes the oldest waiting chunk.
    pub open spec fn taken(self) -> TrackerState {
        if self.queue.len() == 0 {
            self
        } else {
            TrackerState {
                phases: self.phases.insert(self.queue[0], Phase::InProgress),
                queue: self.queue.drop_first(),
            }
        }
    }

    /// The state after the rebuild of `chunk` ended with `outcome`. A chunk
    /// that is not being rebuilt is left as it is.
    pub open spec fn finished(self, chunk: u64, outcome: RebuildOutcome) -> TrackerState {
        match self.phase(chunk) {
            Phase::InProgress => if outcome == RebuildOutcome::Finished {
                TrackerState { phases: self.phases.insert(chunk, Phase::Clean), queue: self.queue }
            } else {
                TrackerState {
                    phases: self.phases.insert(chunk, Phase::Dirty),
                    queue: self.queue.push(chunk),
                }
            },
            Phase::InProgressRemarked => TrackerState {
                phases: self.phases.insert(chunk, Phase::Dirty),
                queue: self.queue.push(chunk),
            },
            _ => self,
        }
    }
}

/// Appending a chunk that is not dirty, and making it dirty, keeps the
/// queue well formed.
proof fn lemma_enqueue_wf(s: TrackerState, chunk: u64)
    requires
        s.wf(),
        s.phase(chunk) != Phase::Dirty,
    ensures
        (TrackerState {
            phases: s.phases.insert(chunk, Phase::Dirty),
            queue: s.queue.push(chunk),
        }).wf(),
{
    let t = TrackerState { phases: s.phases.insert(chunk, Phase::Dirty), queue: s.queue.push(chunk) };
    assert(!s.queue.contains(chunk));
    assert forall|i: int, j: int| 0 <= i < j < t.queue.len() implies t.queue[i] != t.queue[j] by {
        if j == t.queue.len() - 1 {
            assert(s.queue[i] != chunk);
        }
    }
    assert forall|i: int| 0 <= i < t.queue.len() implies t.phase(#[trigger] t.queue[i]) == Phase::Dirty by {
        if i < s.queue.len() {
            assert(s.phase(s.queue[i]) == Phase::Dirty);
        }
    }
    assert forall|c: u64| #[trigger] t.phase(c) == Phase::Dirty implies t.queue.contains(c) by {
        if c == chunk {
            assert(t.queue[t.queue.len() - 1] == c);
        } else {
            assert(s.phase(c) == Phase::Dirty);
            let i = choose|i: int| 0 <= i < s.queue.len() && s.queue[i] == c;
            assert(t.queue[i] == c);
        }
    }
}

/// Changing the phase of a chunk between two phases other than dirty keeps
/// the queue well formed.
proof fn lemma_set_phase_wf(s: TrackerState, chunk: u64, p: Phase)
    requires
        s.wf(),
        s.phase(chunk) != Phase::Dirty,
        p != Phase::Dirty,
    ensures
        (TrackerState { phases: s.phases.insert(chunk, p), queue: s.queue }).wf(),
{
    let t = TrackerState { phases: s.phases.insert(chunk, p), queue: s.queue };
    assert forall|i: int| 0 <= i < t.queue.len() implies t.phase(#[trigger] t.queue[i]) == Phase::Dirty by {
        assert(s.phase(s.queue[i]) == Phase::Dirty);
    }
    assert forall|c: u64| #[trigger] t.phase(c) == Phase::Dirty implies t.queue.contains(c) by {
        assert(s.phase(c) == Phase::Dirty);
    }
}

/// Every transition keeps the queue well formed.
pub proof fn lemma_transitions_wf(s: TrackerState, chunk: u64, outcome: RebuildOutcome)
    requires
        s.wf(),
    ensures
        s.marked(chunk).wf(),
        s.finished(chunk, outcome).wf(),
{
    match s.phase(chunk) {
        Phase::Clean => lemma_enqueue_wf(s, chunk),
        Phase::InProgress => {
            lemma_set_phase_wf(s, chunk, Phase::InProgressRemarked);
            if outcome == RebuildOutcome::Finished {
                lemma_set_phase_wf(s, chunk, Phase::Clean);
            } else {
                lemma_enqueue_wf(s, chunk);
            }
        },
        Phase::InProgressRemarked => lemma_enqueue_wf(s, chunk),
        Phase::Dirty => {},
    }
}

/// No chunk is being rebuilt.
pub open spec fn idle(s: TrackerState) -> bool {
    forall|c: u64|
        #![trigger s.phase(c)]
        s.phase(c) != Phase::InProgress && s.phase(c) != Phase::InProgressRemarked
}

/// The state after the oldest waiting chunk was taken and rebuilt.
pub open spec fn rebuild_oldest(s: TrackerState) -> TrackerState {
    s.taken().finished(s.queue[0], RebuildOutcome::Finished)
}

/// The state reached by rebuilding waiting chunks, oldest first, until
/// none waits, when no further mark arrives.
pub open spec fn settle(s: TrackerState) -> TrackerState
    decreases s.queue.len(),
{
    if s.queue.len() == 0 {
        s
    } else {
        settle(rebuild_oldest(s))
    }
}

/// The chunks rebuilt on the way to `settle(s)`, in order.
pub open spec fn settle_rebuilds(s: TrackerState) -> Seq<u64>
    decreases s.queue.len(),
{
    if s.queue.len() == 0 {
        Seq::empty()
    } else {
        seq![s.queue[0]] + settle_rebuilds(rebuild_oldest(s))
    }
}

proof fn lemma_rebuild_oldest(s: TrackerState)
    requires
        s.wf(),
        idle(s),
        s.queue.len() > 0,
    ensures
        rebuild_oldest(s).wf(),
        idle(rebuild_oldest(s)),
        rebuild_oldest(s).queue == s.queue.drop_first(),
        rebuild_oldest(s).phase(s.queue[0]) == Phase::Clean,
        forall|c: u64| c != s.queue[0] ==> #[trigger] rebuild_oldest(s).phase(c) == s.phase(c),
{
    let c0 = s.queue[0];
    let t = rebuild_oldest(s);
    assert(s.phase(c0) == Phase::Dirty);
    assert(t.phases == s.phases.insert(c0, Phase::InProgress).insert(c0, Phase::Clean));
    assert forall|c: u64| c != c0 implies #[trigger] t.phase(c) == s.phase(c) by {}
    assert forall|i: int| 0 <= i < t.queue.len() implies t.phase(#[trigger] t.queue[i]) == Phase::Dirty by {
        assert(t.queue[i] == s.queue[i + 1]);
        assert(s.phase(s.queue[i + 1]) == Phase::Dirty);
    }
    assert forall|c: u64| #[trigger] t.phase(c) == Phase::Dirty implies t.queue.contains(c) by {
        assert(s.phase(c) == Phase::Dirty);
        let i = choose|i: int| 0 <= i < s.queue.len() && s.queue[i] == c;
        assert(i != 0);
        assert(t.queue[i - 1] == c);
    }
    assert forall|c: u64| #![trigger t.phase(c)]
        t.phase(c) != Phase::InProgress && t.phase(c) != Phase::InProgressRemarked by {
        if c != c0 {
            assert(s.phase(c) != Phase::InProgress);
        }
    }
}

/// Without further marks, rebuilding the waiting chunks oldest first leaves
/// every chunk clean, and rebuilds each chunk that was dirty exactly once,
/// in the order its mark arrived.
pub proof fn lemma_dirty_convergence(s: TrackerState)
    requires
        s.wf(),
        idle(s),
    ensures
        settle(s).queue.len() == 0,
        forall|c: u64| #[trigger] settle(s).phase(c) == Phase::Clean,
        settle_rebuilds(s) == s.queue,
        settle_rebuilds(s).no_duplicates(),
        forall|c: u64| #[trigger] settle_rebuilds(s).contains(c) <==> s.phase(c) == Phase::Dirty,
    decreases s.queue.len(),
{
    if s.queue.len() == 0 {
        assert forall|c: u64| #[trigger] settle(s).phase(c) == Phase::Clean by {
            if s.phase(c) == Phase::Dirty {
                assert(s.queue.contains(c));
            }
        }
    } else {
        let t = rebuild_oldest(s);
        lemma_rebuild_oldest(s);
        lemma_dirty_convergence(t);
        assert(settle_rebuilds(s) =~= s.queue);
    }
    assert forall|c: u64| #[trigger] settle_rebuilds(s).contains(c) <==> s.phase(c) == Phase::Dirty by {
        if s.queue.contains(c) {
            let i = choose|i: int| 0 <= i < s.queue.len() && s.queue[i] == c;
        }
    }
}

/// Tracks, per chunk, whether its collider is stale, and queues the stale
/// chunks in the order their marks arrived.
pub struct DirtyTracker {
    phases: HashMap<u64, Phase>,
    queue: VecDeque<u64>,
}

impl View for DirtyTracker {
    type V = TrackerState;

    closed spec fn view(&self) -> TrackerState {
        TrackerState { phases: self.phases@, queue: self.queue@ }
    }
}

impl DirtyTracker {
    /// A tracker that knows no chunk.
    pub fn new() -> (r: DirtyTracker)
        ensures
            r@.phases == Map::<u64, Phase>::empty(),
            r@.queue == Seq::<u64>::empty(),
            r@.wf(),
    {
        DirtyTracker { phases: HashMap::new(), queue: VecDeque::new() }
    }

    /// The phase of `chunk`.
    pub fn phase(&self, chunk: u64) -> (r: Phase)
        ensures
            r == self@.phase(chunk),
    {
        match self.phases.get(&chunk) {
            Some(p) => *p,
            None => Phase::Clean,
        }
    }

    /// Number of chunks waiting for a rebuild.
    pub fn pending(&self) -> (r: usize)
        ensures
            r == self@.queue.len(),
    {
        self.queue.len()
    }

    /// Records that `chunk` was created or received a new mesh.
    pub fn mark(&mut self, chunk: u64)
        requires
            old(self)@.wf(),
        ensures
            final(self)@ == old(self)@.marked(chunk),
            final(self)@.wf(),
    {
        let p = self.phase(chunk);
        match p {
            Phase::Clean => {
                self.phases.insert(chunk, Phase::Dirty);
                self.queue.push_back(chunk);
            },
            Phase::InProgress => {
                self.phases.insert(chunk, Phase::InProgressRemarked);
            },
            _ => {},
        }
        proof {
            assert(self@ =~= old(self)@.marked(chunk));
            lemma_transitions_wf(old(self)@, chunk, RebuildOutcome::Finished);
        }
    }

    /// Hands out the chunk that has waited longest, now in progress.
    pub fn take_next(&mut self) -> (r: Option<u64>)
        requires
            old(self)@.wf(),
        ensures
            final(self)@ == old(self)@.taken(),
            final(self)@.wf(),
            r == (if old(self)@.queue.len() == 0 {
                None::<u64>
            } else {
                Some(old(self)@.queue[0])
            }),
    {
        match self.queue.pop_front() {
            Some(chunk) => {
                self.phases.insert(chunk, Phase::InProgress);
                proof {
                    assert(self@ =~= old(self)@.taken());
                    assert forall|c: u64| #[trigger] self@.phase(c) == Phase::Dirty implies self@.queue.contains(c) by {
                        assert(old(self)@.phase(c) == Phase::Dirty);
                        let i = choose|i: int| 0 <= i < old(self)@.queue.len() && old(self)@.queue[i] == c;
                        assert(self@.queue[i - 1] == c);
                    }
                }
                Some(chunk)
            },
            None => None,
        }
    }

    /// Records how the rebuild of `chunk` ended.
    pub fn finish(&mut self, chunk: u64, outcome: RebuildOutcome)
        requires
            old(self)@.wf(),
        ensures
            final(self)@ == old(self)@.finished(chunk, outcome),
            final(self)@.wf(),
    {
        let p = self.phase(chunk);
        match p {
            Phase::InProgress => {
                match outcome {
                    RebuildOutcome::Finished => {
                        self.phases.insert(chunk, Phase::Clean);
                    },
                    RebuildOutcome::Deferred => {
                        self.phases.insert(chunk, Phase::Dirty);
                        self.queue.push_back(chunk);
                    },
                }
            },
            Phase::InProgressRemarked => {
                self.phases.insert(chunk, Phase::Dirty);
                self.queue.push_back(chunk);
            },
            _ => {},
        }
        proof {
            assert(self@ =~= old(self)@.finished(chunk, outcome));
            lemma_transitions_wf(old(self)@, chunk, outcome);
        }
    }
}

} // verus!
