use vstd::prelude::*;
use crate::settle::{SettleModel, Settlement};

verus! {

/// A requested mutation, pending from dispatch until its settlement arrives.
pub enum MutationIntent {
    /// Store a new record carrying the given text.
    Add(String),
    /// Invert the completion flag of the record with this identity.
    Toggle(u32),
    /// Delete the record with this identity.
    Delete(u32),
    /// Mark every record done.
    MarkAllDone,
    /// Mark every record undone.
    MarkAllUndone,
    /// Delete every record.
    DeleteAll,
    /// Ask the store for the records whose task contains this text.
    Search(String),
}

/// Mathematical image of a [`MutationIntent`].
pub enum IntentModel {
    Add(Seq<char>),
    Toggle(u32),
    Delete(u32),
    MarkAllDone,
    MarkAllUndone,
    DeleteAll,
    Search(Seq<char>),
}

impl View for MutationIntent {
    type V = IntentModel;

    open spec fn view(&self) -> IntentModel {
        match self {
            MutationIntent::Add(t) => IntentModel::Add(t@),
            MutationIntent::Toggle(id) => IntentModel::Toggle(*id),
            MutationIntent::Delete(id) => IntentModel::Delete(*id),
            MutationIntent::MarkAllDone => IntentModel::MarkAllDone,
            MutationIntent::MarkAllUndone => IntentModel::MarkAllUndone,
            MutationIntent::DeleteAll => IntentModel::DeleteAll,
            MutationIntent::Search(t) => IntentModel::Search(t@),
        }
    }
}

/// One pending/settled lifecycle lane per call kind: the seven intents and
/// the initial load.
#[derive(Clone, Copy, PartialEq, Eq, Structural)]
pub enum LaneKind {
    Load,
    Search,
    Add,
    Toggle,
    Delete,
    MarkAllDone,
    MarkAllUndone,
    DeleteAll,
}

/// The lane an intent's settlement will arrive on.
pub open spec fn intent_lane(i: IntentModel) -> LaneKind {
    match i {
        IntentModel::Add(_) => LaneKind::Add,
        IntentModel::Toggle(_) => LaneKind::Toggle,
        IntentModel::Delete(_) => LaneKind::Delete,
        IntentModel::MarkAllDone => LaneKind::MarkAllDone,
        IntentModel::MarkAllUndone => LaneKind::MarkAllUndone,
        IntentModel::DeleteAll => LaneKind::DeleteAll,
        IntentModel::Search(_) => LaneKind::Search,
    }
}

/// The lane a settlement belongs to.
pub open spec fn settle_lane(s: SettleModel) -> LaneKind {
    match s {
        SettleModel::Loaded(_) => LaneKind::Load,
        SettleModel::Searched(_) => LaneKind::Search,
        SettleModel::Added(_) => LaneKind::Add,
        SettleModel::Toggled(_) => LaneKind::Toggle,
        SettleModel::Deleted(_) => LaneKind::Delete,
        SettleModel::MarkedAllDone(_) => LaneKind::MarkAllDone,
        SettleModel::MarkedAllUndone(_) => LaneKind::MarkAllUndone,
        SettleModel::Cleared(_) => LaneKind::DeleteAll,
    }
}

/// The lane of an intent, computed at run time.
pub fn lane_of_intent(i: &MutationIntent) -> (k: LaneKind)
    ensures
        k == intent_lane(i@),
{
    match i {
        MutationIntent::Add(_) => LaneKind::Add,
        MutationIntent::Toggle(_) => LaneKind::Toggle,
        MutationIntent::Delete(_) => LaneKind::Delete,
        MutationIntent::MarkAllDone => LaneKind::MarkAllDone,
        MutationIntent::MarkAllUndone => LaneKind::MarkAllUndone,
        MutationIntent::DeleteAll => LaneKind::DeleteAll,
        MutationIntent::Search(_) => LaneKind::Search,
    }
}

/// The lane of a settlement, computed at run time.
pub fn lane_of_settlement(s: &Settlement) -> (k: LaneKind)
    ensures
        k == settle_lane(s@),
{
    match s {
        Settlement::Loaded(_) => LaneKind::Load,
        Settlement::Searched(_) => LaneKind::Search,
        Settlement::Added(_) => LaneKind::Add,
        Settlement::Toggled(_) => LaneKind::Toggle,
        Settlement::Deleted(_) => LaneKind::Delete,
        Settlement::MarkedAllDone(_) => LaneKind::MarkAllDone,
        Settlement::MarkedAllUndone(_) => LaneKind::MarkAllUndone,
        Settlement::Cleared(_) => LaneKind::DeleteAll,
    }
}

/// Strictly increasing version sequence: versions are pairwise distinct and
/// listed in dispatch order.
pub open spec fn strictly_increasing(s: Seq<u64>) -> bool {
    forall|i: int, j: int| 0 <= i < j < s.len() ==> s[i] < s[j]
}

/// `s` with the one occurrence of `v` removed, or `s` unchanged when `v` is
/// absent.
pub open spec fn without_version(s: Seq<u64>, v: u64) -> Seq<u64> {
    if s.contains(v) {
        s.remove(s.index_of(v))
    } else {
        s
    }
}

/// Removes `v` from a duplicate-free version list, reporting whether it was
/// there.
fn take_version(lane: &mut Vec<u64>, v: u64) -> (hit: bool)
    requires
        forall|i: int, j: int| 0 <= i < j < old(lane)@.len() ==> old(lane)@[i] != old(lane)@[j],
    ensures
        hit == old(lane)@.contains(v),
        final(lane)@ == without_version(old(lane)@, v),
{
    let n = lane.len();
    let mut i: usize = 0;
    while i < n
        invariant
            lane@ == old(lane)@,
            forall|a: int, b: int| 0 <= a < b < lane@.len() ==> lane@[a] != lane@[b],
            n == lane@.len(),
            i <= n,
            forall|j: int| 0 <= j < i ==> lane@[j] != v,
        decreases n - i,
    {
        if lane[i] == v {
            proof {
                assert(lane@.contains(v)) by {
                    assert(lane@[i as int] == v);
                }
                assert(lane@.index_of(v) == i as int) by {
                    let j = lane@.index_of(v);
                    assert(lane@[j] == v);
                    if j < i as int {
                        assert(lane@[j] != lane@[i as int]);
                    } else if j > i as int {
                        assert(lane@[i as int] != lane@[j]);
                    }
                }
            }
            lane.remove(i);
            return true;
        }
        i += 1;
    }
    proof {
        assert(!lane@.contains(v)) by {
            if lane@.contains(v) {
                let j = choose|j: int| 0 <= j < lane@.len() && lane@[j] == v;
                assert(lane@[j] != v);
            }
        }
    }
    false
}

/// Issues intents to the remote store and tracks the in-flight calls.
///
/// Each dispatch takes a fresh version from a monotonically increasing
/// counter and parks it on its kind's lane; a settlement consumes its
/// version exactly once, so a settled value observed again is a no-op.
pub struct Dispatcher {
    next_version: u64,
    load: Vec<u64>,
    search: Vec<u64>,
    add: Vec<u64>,
    toggle: Vec<u64>,
    delete: Vec<u64>,
    mark_all_done: Vec<u64>,
    mark_all_undone: Vec<u64>,
    delete_all: Vec<u64>,
}

impl Dispatcher {
    /// The next version the dispatcher will hand out.
    pub closed spec fn next(self) -> u64 {
        self.next_version
    }

    /// The versions in flight on lane `k`, in dispatch order.
    pub closed spec fn lane(self, k: LaneKind) -> Seq<u64> {
        match k {
            LaneKind::Load => self.load@,
            LaneKind::Search => self.search@,
            LaneKind::Add => self.add@,
            LaneKind::Toggle => self.toggle@,
            LaneKind::Delete => self.delete@,
            LaneKind::MarkAllDone => self.mark_all_done@,
            LaneKind::MarkAllUndone => self.mark_all_undone@,
            LaneKind::DeleteAll => self.delete_all@,
        }
    }

    /// Every lane lists distinct versions in dispatch order, all below the
    /// counter.
    pub open spec fn wf(self) -> bool {
        forall|k: LaneKind|
            strictly_increasing(#[trigger] self.lane(k)) && (forall|i: int|
                0 <= i < self.lane(k).len() ==> self.lane(k)[i] < self.next())
    }

    /// A dispatcher with no call in flight.
    pub fn new() -> (r: Dispatcher)
        ensures
            r.wf(),
            r.next() == 0,
            forall|k: LaneKind| (#[trigger] r.lane(k)).len() == 0,
    {
        Dispatcher {
            next_version: 0,
            load: Vec::new(),
            search: Vec::new(),
            add: Vec::new(),
            toggle: Vec::new(),
            delete: Vec::new(),
            mark_all_done: Vec::new(),
            mark_all_undone: Vec::new(),
            delete_all: Vec::new(),
        }
    }

    /// Parks a fresh version on lane `k` and returns it: the dispatch half
    /// of the lifecycle. Fire-and-forget: the caller hands the version to
    /// the store and resumes at once.
    pub fn dispatch(&mut self, k: LaneKind) -> (v: u64)
        requires
            old(self).wf(),
            old(self).next() < u64::MAX,
        ensures
            final(self).wf(),
            v == old(self).next(),
            final(self).next() == old(self).next() + 1,
            final(self).lane(k) == old(self).lane(k).push(v),
            forall|k2: LaneKind| k2 != k ==> #[trigger] final(self).lane(k2) == old(self).lane(k2),
    {
        let v = self.next_version;
        self.next_version = self.next_version + 1;
        match k {
            LaneKind::Load => self.load.push(v),
            LaneKind::Search => self.search.push(v),
            LaneKind::Add => self.add.push(v),
            LaneKind::Toggle => self.toggle.push(v),
            LaneKind::Delete => self.delete.push(v),
            LaneKind::MarkAllDone => self.mark_all_done.push(v),
            LaneKind::MarkAllUndone => self.mark_all_undone.push(v),
            LaneKind::DeleteAll => self.delete_all.push(v),
        }
        proof {
            assert(self.lane(k) == old(self).lane(k).push(v));
            assert forall|k2: LaneKind| k2 != k implies #[trigger] self.lane(k2) == old(self).lane(
                k2,
            ) by {}
            assert(self.wf()) by {
                assert forall|k2: LaneKind|
                    strictly_increasing(#[trigger] self.lane(k2)) && (forall|i: int|
                        0 <= i < self.lane(k2).len() ==> self.lane(k2)[i] < self.next()) by {
                    assert(strictly_increasing(old(self).lane(k2)));
                    assert(forall|i: int|
                        0 <= i < old(self).lane(k2).len() ==> old(self).lane(k2)[i] < old(
                            self,
                        ).next());
                    if k2 == k {
                        assert forall|i: int, j: int|
                            0 <= i < j < self.lane(k2).len() implies self.lane(k2)[i] < self.lane(
                            k2,
                        )[j] by {
                            if j < old(self).lane(k2).len() {
                                assert(old(self).lane(k2)[i] < old(self).lane(k2)[j]);
                            } else {
                                assert(self.lane(k2)[j] == v);
                                assert(old(self).lane(k2)[i] < v);
                            }
                        }
                    }
                }
            }
        }
        v
    }

    /// How many versions have been handed out so far.
    pub fn versions_used(&self) -> (v: u64)
        ensures
            v == self.next(),
    {
        self.next_version
    }

    /// How many versions are in flight on lane `k`.
    pub fn pending_count(&self, k: LaneKind) -> (n: usize)
        ensures
            n == self.lane(k).len(),
    {
        match k {
            LaneKind::Load => self.load.len(),
            LaneKind::Search => self.search.len(),
            LaneKind::Add => self.add.len(),
            LaneKind::Toggle => self.toggle.len(),
            LaneKind::Delete => self.delete.len(),
            LaneKind::MarkAllDone => self.mark_all_done.len(),
            LaneKind::MarkAllUndone => self.mark_all_undone.len(),
            LaneKind::DeleteAll => self.delete_all.len(),
        }
    }

    /// Consumes version `v` from lane `k` if it is still pending: the guard
    /// that applies each settled value at most once.
    pub fn consume(&mut self, k: LaneKind, v: u64) -> (hit: bool)
        requires
            old(self).wf(),
        ensures
            final(self).wf(),
            hit == old(self).lane(k).contains(v),
            final(self).lane(k) == without_version(old(self).lane(k), v),
            final(self).next() == old(self).next(),
            forall|k2: LaneKind| k2 != k ==> #[trigger] final(self).lane(k2) == old(self).lane(k2),
    {
        proof {
            assert(strictly_increasing(old(self).lane(k)));
        }
        let hit = match k {
            LaneKind::Load => take_version(&mut self.load, v),
            LaneKind::Search => take_version(&mut self.search, v),
            LaneKind::Add => take_version(&mut self.add, v),
            LaneKind::Toggle => take_version(&mut self.toggle, v),
            LaneKind::Delete => take_version(&mut self.delete, v),
            LaneKind::MarkAllDone => take_version(&mut self.mark_all_done, v),
            LaneKind::MarkAllUndone => take_version(&mut self.mark_all_undone, v),
            LaneKind::DeleteAll => take_version(&mut self.delete_all, v),
        };
        proof {
            assert(self.lane(k) == without_version(old(self).lane(k), v));
            assert(self.wf()) by {
                assert forall|k2: LaneKind|
                    strictly_increasing(#[trigger] self.lane(k2)) && (forall|i: int|
                        0 <= i < self.lane(k2).len() ==> self.lane(k2)[i] < self.next()) by {
                    assert(strictly_increasing(old(self).lane(k2)));
                    assert(forall|i: int|
                        0 <= i < old(self).lane(k2).len() ==> old(self).lane(k2)[i] < old(
                            self,
                        ).next());
                    if k2 == k && old(self).lane(k).contains(v) {
                        let s = old(self).lane(k);
                        let idx = s.index_of(v);
                        assert forall|i: int, j: int|
                            0 <= i < j < self.lane(k2).len() implies self.lane(k2)[i] < self.lane(
                            k2,
                        )[j] by {
                            let i0: int = if i < idx {
                                i
                            } else {
                                i + 1
                            };
                            let j0: int = if j < idx {
                                j
                            } else {
                                j + 1
                            };
                            assert(self.lane(k2)[i] == s[i0]);
                            assert(self.lane(k2)[j] == s[j0]);
                            assert(s[i0] < s[j0]);
                        }
                        assert forall|i: int| 0 <= i < self.lane(k2).len() implies self.lane(
                            k2,
                        )[i] < self.next() by {
                            let i0: int = if i < idx {
                                i
                            } else {
                                i + 1
                            };
                            assert(self.lane(k2)[i] == s[i0]);
                        }
                    }
                }
            }
        }
        hit
    }
}

} // verus!
