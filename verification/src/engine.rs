use vstd::prelude::*;
use crate::item::ItemModel;
use crate::registry::Registry;
use crate::settle::{Settlement, SettleModel, StoreError, apply_model, settle_error, apply};
use crate::dispatch::{
    Dispatcher, LaneKind, MutationIntent, intent_lane, lane_of_intent, lane_of_settlement,
    settle_lane, without_version,
};

verus! {

/// Mathematical image of `Option<String>`.
pub open spec fn text_model(m: Option<String>) -> Option<Seq<char>> {
    match m {
        Some(s) => Some(s@),
        None => None,
    }
}

/// The per-kind user-visible error messages: a failed settlement surfaces
/// its store error verbatim, scoped to the kind that triggered the call; a
/// later success of the same kind clears it.
pub struct Messages {
    pub load: Option<String>,
    pub search: Option<String>,
    pub add: Option<String>,
    pub toggle: Option<String>,
    pub delete: Option<String>,
    pub mark_all_done: Option<String>,
    pub mark_all_undone: Option<String>,
    pub delete_all: Option<String>,
}

impl Messages {
    /// The message surfaced for kind `k`, if any.
    pub closed spec fn msg(self, k: LaneKind) -> Option<Seq<char>> {
        match k {
            LaneKind::Load => text_model(self.load),
            LaneKind::Search => text_model(self.search),
            LaneKind::Add => text_model(self.add),
            LaneKind::Toggle => text_model(self.toggle),
            LaneKind::Delete => text_model(self.delete),
            LaneKind::MarkAllDone => text_model(self.mark_all_done),
            LaneKind::MarkAllUndone => text_model(self.mark_all_undone),
            LaneKind::DeleteAll => text_model(self.delete_all),
        }
    }

    fn set(&mut self, k: LaneKind, err: Option<StoreError>)
        ensures
            final(self).msg(k) == (match err {
                Some(e) => Some(e@),
                None => None::<Seq<char>>,
            }),
            forall|k2: LaneKind| k2 != k ==> #[trigger] final(self).msg(k2) == old(self).msg(k2),
    {
        let m: Option<String> = match err {
            Some(e) => Some(e.message),
            None => None,
        };
        match k {
            LaneKind::Load => self.load = m,
            LaneKind::Search => self.search = m,
            LaneKind::Add => self.add = m,
            LaneKind::Toggle => self.toggle = m,
            LaneKind::Delete => self.delete = m,
            LaneKind::MarkAllDone => self.mark_all_done = m,
            LaneKind::MarkAllUndone => self.mark_all_undone = m,
            LaneKind::DeleteAll => self.delete_all = m,
        }
    }

    fn get(&self, k: LaneKind) -> (m: Option<String>)
        ensures
            text_model(m) == self.msg(k),
    {
        let slot = match k {
            LaneKind::Load => &self.load,
            LaneKind::Search => &self.search,
            LaneKind::Add => &self.add,
            LaneKind::Toggle => &self.toggle,
            LaneKind::Delete => &self.delete,
            LaneKind::MarkAllDone => &self.mark_all_done,
            LaneKind::MarkAllUndone => &self.mark_all_undone,
            LaneKind::DeleteAll => &self.delete_all,
        };
        match slot {
            Some(s) => Some(s.clone()),
            None => None,
        }
    }
}

/// The in-flight versions of every lane.
pub struct LanesModel {
    pub load: Seq<u64>,
    pub search: Seq<u64>,
    pub add: Seq<u64>,
    pub toggle: Seq<u64>,
    pub delete: Seq<u64>,
    pub mark_all_done: Seq<u64>,
    pub mark_all_undone: Seq<u64>,
    pub delete_all: Seq<u64>,
}

/// The surfaced message of every lane.
pub struct MsgsModel {
    pub load: Option<Seq<char>>,
    pub search: Option<Seq<char>>,
    pub add: Option<Seq<char>>,
    pub toggle: Option<Seq<char>>,
    pub delete: Option<Seq<char>>,
    pub mark_all_done: Option<Seq<char>>,
    pub mark_all_undone: Option<Seq<char>>,
    pub delete_all: Option<Seq<char>>,
}

pub open spec fn lane_get(l: LanesModel, k: LaneKind) -> Seq<u64> {
    match k {
        LaneKind::Load => l.load,
        LaneKind::Search => l.search,
        LaneKind::Add => l.add,
        LaneKind::Toggle => l.toggle,
        LaneKind::Delete => l.delete,
        LaneKind::MarkAllDone => l.mark_all_done,
        LaneKind::MarkAllUndone => l.mark_all_undone,
        LaneKind::DeleteAll => l.delete_all,
    }
}

pub open spec fn lane_set(l: LanesModel, k: LaneKind, s: Seq<u64>) -> LanesModel {
    match k {
        LaneKind::Load => LanesModel { load: s, ..l },
        LaneKind::Search => LanesModel { search: s, ..l },
        LaneKind::Add => LanesModel { add: s, ..l },
        LaneKind::Toggle => LanesModel { toggle: s, ..l },
        LaneKind::Delete => LanesModel { delete: s, ..l },
        LaneKind::MarkAllDone => LanesModel { mark_all_done: s, ..l },
        LaneKind::MarkAllUndone => LanesModel { mark_all_undone: s, ..l },
        LaneKind::DeleteAll => LanesModel { delete_all: s, ..l },
    }
}

pub open spec fn msg_get(m: MsgsModel, k: LaneKind) -> Option<Seq<char>> {
    match k {
        LaneKind::Load => m.load,
        LaneKind::Search => m.search,
        LaneKind::Add => m.add,
        LaneKind::Toggle => m.toggle,
        LaneKind::Delete => m.delete,
        LaneKind::MarkAllDone => m.mark_all_done,
        LaneKind::MarkAllUndone => m.mark_all_undone,
        LaneKind::DeleteAll => m.delete_all,
    }
}

pub open spec fn msg_set(m: MsgsModel, k: LaneKind, v: Option<Seq<char>>) -> MsgsModel {
    match k {
        LaneKind::Load => MsgsModel { load: v, ..m },
        LaneKind::Search => MsgsModel { search: v, ..m },
        LaneKind::Add => MsgsModel { add: v, ..m },
        LaneKind::Toggle => MsgsModel { toggle: v, ..m },
        LaneKind::Delete => MsgsModel { delete: v, ..m },
        LaneKind::MarkAllDone => MsgsModel { mark_all_done: v, ..m },
        LaneKind::MarkAllUndone => MsgsModel { mark_all_undone: v, ..m },
        LaneKind::DeleteAll => MsgsModel { delete_all: v, ..m },
    }
}

/// Mathematical image of the whole engine: the registry sequence, the
/// version counter, the in-flight versions, and the surfaced messages.
pub struct EngineModel {
    pub items: Seq<ItemModel>,
    pub next_version: u64,
    pub lanes: LanesModel,
    pub msgs: MsgsModel,
}

/// One observable event: an intent dispatched on a lane, or a settlement
/// arriving with the version of the dispatch it answers.
pub enum EventModel {
    Dispatched(LaneKind),
    Settled(u64, SettleModel),
}

/// The engine state after one event.
///
/// A dispatch parks a fresh version on its lane and touches nothing else.
/// An arriving settlement whose version is still pending consumes that
/// version, applies the per-kind reconciliation rule to the registry, and
/// sets or clears its kind's message; any other settlement (a stale or
/// duplicate observation) changes nothing.
pub open spec fn step(st: EngineModel, ev: EventModel) -> EngineModel {
    match ev {
        EventModel::Dispatched(k) => EngineModel {
            items: st.items,
            next_version: (st.next_version + 1) as u64,
            lanes: lane_set(st.lanes, k, lane_get(st.lanes, k).push(st.next_version)),
            msgs: st.msgs,
        },
        EventModel::Settled(v, s) => {
            let k = settle_lane(s);
            if lane_get(st.lanes, k).contains(v) {
                EngineModel {
                    items: apply_model(st.items, s),
                    next_version: st.next_version,
                    lanes: lane_set(st.lanes, k, without_version(lane_get(st.lanes, k), v)),
                    msgs: msg_set(st.msgs, k, settle_error(s)),
                }
            } else {
                st
            }
        },
    }
}

/// The engine state after a sequence of events.
pub open spec fn run(st: EngineModel, tr: Seq<EventModel>) -> EngineModel
    decreases tr.len(),
{
    if tr.len() == 0 {
        st
    } else {
        run(step(st, tr[0]), tr.drop_first())
    }
}

/// The settlements of a trace, in arrival order.
pub open spec fn arrivals(tr: Seq<EventModel>) -> Seq<SettleModel>
    decreases tr.len(),
{
    if tr.len() == 0 {
        Seq::<SettleModel>::empty()
    } else {
        let rest = arrivals(tr.drop_first());
        match tr[0] {
            EventModel::Settled(_, s) => seq![s] + rest,
            EventModel::Dispatched(_) => rest,
        }
    }
}

/// The registry sequence after the settlements of `ss` are applied in order.
pub open spec fn replay(items: Seq<ItemModel>, ss: Seq<SettleModel>) -> Seq<ItemModel>
    decreases ss.len(),
{
    if ss.len() == 0 {
        items
    } else {
        replay(apply_model(items, ss[0]), ss.drop_first())
    }
}

/// A trace in which every settlement answers a dispatch that is still
/// pending when it arrives: each dispatched call settles once and no
/// settlement is fabricated or replayed.
pub open spec fn consuming_trace(st: EngineModel, tr: Seq<EventModel>) -> bool
    decreases tr.len(),
{
    if tr.len() == 0 {
        true
    } else {
        let ok = match tr[0] {
            EventModel::Settled(v, s) => lane_get(st.lanes, settle_lane(s)).contains(v),
            EventModel::Dispatched(_) => true,
        };
        ok && consuming_trace(step(st, tr[0]), tr.drop_first())
    }
}

/// Along a consuming trace, the registry sequence the run ends with is
/// exactly the replay of the arrived settlements over the starting
/// sequence: dispatches leave no mark on the registry.
pub proof fn lemma_run_replays_arrivals(st: EngineModel, tr: Seq<EventModel>)
    requires
        consuming_trace(st, tr),
    ensures
        run(st, tr).items == replay(st.items, arrivals(tr)),
    decreases tr.len(),
{
    if tr.len() != 0 {
        let st2 = step(st, tr[0]);
        lemma_run_replays_arrivals(st2, tr.drop_first());
        match tr[0] {
            EventModel::Dispatched(_) => {
                assert(st2.items == st.items);
            },
            EventModel::Settled(v, s) => {
                assert(st2.items == apply_model(st.items, s));
                let ss = arrivals(tr);
                assert(ss == seq![s] + arrivals(tr.drop_first()));
                assert(ss[0] == s);
                assert(ss.drop_first() =~= arrivals(tr.drop_first()));
            },
        }
    }
}

/// A settled value is applied at most once even if observed multiple
/// times: with distinct versions in flight, seeing the same settlement
/// again changes nothing, because its version was consumed the first time.
pub proof fn lemma_settled_applied_at_most_once(st: EngineModel, v: u64, s: SettleModel)
    requires
        forall|i: int, j: int|
            0 <= i < j < lane_get(st.lanes, settle_lane(s)).len() ==> lane_get(
                st.lanes,
                settle_lane(s),
            )[i] != lane_get(st.lanes, settle_lane(s))[j],
    ensures
        step(step(st, EventModel::Settled(v, s)), EventModel::Settled(v, s)) == step(
            st,
            EventModel::Settled(v, s),
        ),
{
    let k = settle_lane(s);
    let lane = lane_get(st.lanes, k);
    if lane.contains(v) {
        let st1 = step(st, EventModel::Settled(v, s));
        assert(lane_get(st1.lanes, k) == without_version(lane, v));
        let idx = lane.index_of(v);
        assert(0 <= idx < lane.len() && lane[idx] == v);
        assert(!without_version(lane, v).contains(v)) by {
            let shorter = lane.remove(idx);
            if shorter.contains(v) {
                let m = choose|m: int| 0 <= m < shorter.len() && shorter[m] == v;
                if m < idx {
                    assert(lane[m] == shorter[m]);
                    assert(lane[m] != lane[idx]);
                } else {
                    assert(lane[m + 1] == shorter[m]);
                    assert(lane[idx] != lane[m + 1]);
                }
            }
        }
    }
}

/// For all sequences of dispatched intents, the final registry state is a
/// function only of the sequence of arrived settlements, not of the order
/// in which the intents were issued: two consuming traces over the same
/// starting sequence whose settlements arrive alike end alike.
pub proof fn lemma_registry_determined_by_arrivals(
    st1: EngineModel,
    tr1: Seq<EventModel>,
    st2: EngineModel,
    tr2: Seq<EventModel>,
)
    requires
        consuming_trace(st1, tr1),
        consuming_trace(st2, tr2),
        st1.items == st2.items,
        arrivals(tr1) == arrivals(tr2),
    ensures
        run(st1, tr1).items == run(st2, tr2).items,
{
    lemma_run_replays_arrivals(st1, tr1);
    lemma_run_replays_arrivals(st2, tr2);
}

/// The reconciliation engine: the registry, the dispatcher, and the
/// per-kind messages, evolving by [`step`].
pub struct Engine {
    /// The ordered, keyed collection the effects reconcile into. Only
    /// settlement application mutates it; all other consumers read.
    pub registry: Registry,
    dispatcher: Dispatcher,
    messages: Messages,
}

impl Engine {
    /// Mathematical image of the engine.
    pub closed spec fn model(self) -> EngineModel {
        EngineModel {
            items: self.registry.items(),
            next_version: self.dispatcher.next(),
            lanes: LanesModel {
                load: self.dispatcher.lane(LaneKind::Load),
                search: self.dispatcher.lane(LaneKind::Search),
                add: self.dispatcher.lane(LaneKind::Add),
                toggle: self.dispatcher.lane(LaneKind::Toggle),
                delete: self.dispatcher.lane(LaneKind::Delete),
                mark_all_done: self.dispatcher.lane(LaneKind::MarkAllDone),
                mark_all_undone: self.dispatcher.lane(LaneKind::MarkAllUndone),
                delete_all: self.dispatcher.lane(LaneKind::DeleteAll),
            },
            msgs: MsgsModel {
                load: self.messages.msg(LaneKind::Load),
                search: self.messages.msg(LaneKind::Search),
                add: self.messages.msg(LaneKind::Add),
                toggle: self.messages.msg(LaneKind::Toggle),
                delete: self.messages.msg(LaneKind::Delete),
                mark_all_done: self.messages.msg(LaneKind::MarkAllDone),
                mark_all_undone: self.messages.msg(LaneKind::MarkAllUndone),
                delete_all: self.messages.msg(LaneKind::DeleteAll),
            },
        }
    }

    /// Well-formedness of the engine's parts.
    pub closed spec fn wf(self) -> bool {
        &&& self.registry.wf()
        &&& self.dispatcher.wf()
    }

    /// The initial engine state: nothing loaded, nothing in flight, no
    /// message.
    pub open spec fn init_model() -> EngineModel {
        EngineModel {
            items: Seq::<ItemModel>::empty(),
            next_version: 0,
            lanes: LanesModel {
                load: Seq::<u64>::empty(),
                search: Seq::<u64>::empty(),
                add: Seq::<u64>::empty(),
                toggle: Seq::<u64>::empty(),
                delete: Seq::<u64>::empty(),
                mark_all_done: Seq::<u64>::empty(),
                mark_all_undone: Seq::<u64>::empty(),
                delete_all: Seq::<u64>::empty(),
            },
            msgs: MsgsModel {
                load: None,
                search: None,
                add: None,
                toggle: None,
                delete: None,
                mark_all_done: None,
                mark_all_undone: None,
                delete_all: None,
            },
        }
    }

    /// An engine with an empty registry and no call in flight.
    pub fn new() -> (r: Engine)
        ensures
            r.wf(),
            r.model() == Engine::init_model(),
    {
        let r = Engine {
            registry: Registry::new(),
            dispatcher: Dispatcher::new(),
            messages: Messages {
                load: None,
                search: None,
                add: None,
                toggle: None,
                delete: None,
                mark_all_done: None,
                mark_all_undone: None,
                delete_all: None,
            },
        };
        proof {
            assert(r.dispatcher.lane(LaneKind::Load) =~= Seq::<u64>::empty());
            assert(r.dispatcher.lane(LaneKind::Search) =~= Seq::<u64>::empty());
            assert(r.dispatcher.lane(LaneKind::Add) =~= Seq::<u64>::empty());
            assert(r.dispatcher.lane(LaneKind::Toggle) =~= Seq::<u64>::empty());
            assert(r.dispatcher.lane(LaneKind::Delete) =~= Seq::<u64>::empty());
            assert(r.dispatcher.lane(LaneKind::MarkAllDone) =~= Seq::<u64>::empty());
            assert(r.dispatcher.lane(LaneKind::MarkAllUndone) =~= Seq::<u64>::empty());
            assert(r.dispatcher.lane(LaneKind::DeleteAll) =~= Seq::<u64>::empty());
        }
        r
    }

    fn dispatch_on(&mut self, k: LaneKind) -> (v: u64)
        requires
            old(self).wf(),
            old(self).model().next_version < u64::MAX,
        ensures
            final(self).wf(),
            final(self).model() == step(old(self).model(), EventModel::Dispatched(k)),
            v == old(self).model().next_version,
    {
        let v = self.dispatcher.dispatch(k);
        proof {
            let pre = old(self).model();
            let post = step(pre, EventModel::Dispatched(k));
            assert(self.model().lanes == post.lanes);
            assert(self.model() == post);
        }
        v
    }

    /// Issues `intent` to the store's lane and returns the version the
    /// settlement must answer with. Fire-and-forget: the registry and the
    /// messages are untouched.
    pub fn dispatch(&mut self, intent: &MutationIntent) -> (v: u64)
        requires
            old(self).wf(),
            old(self).model().next_version < u64::MAX,
        ensures
            final(self).wf(),
            final(self).model() == step(
                old(self).model(),
                EventModel::Dispatched(intent_lane(intent@)),
            ),
            v == old(self).model().next_version,
    {
        let k = lane_of_intent(intent);
        self.dispatch_on(k)
    }

    /// Issues the initial load and returns its version.
    pub fn dispatch_load(&mut self) -> (v: u64)
        requires
            old(self).wf(),
            old(self).model().next_version < u64::MAX,
        ensures
            final(self).wf(),
            final(self).model() == step(old(self).model(), EventModel::Dispatched(LaneKind::Load)),
            v == old(self).model().next_version,
    {
        self.dispatch_on(LaneKind::Load)
    }

    /// Applies one arrived settlement: the reconciliation effect.
    ///
    /// If `v` is still pending on the settlement's lane, the version is
    /// consumed, the registry changes by the per-kind rule, and the lane's
    /// message becomes the settlement's error, or is cleared on success.
    /// Otherwise — the version was never dispatched on that lane, or its
    /// settled value was applied already — nothing changes.
    pub fn on_settled(&mut self, v: u64, s: Settlement) -> (applied: bool)
        requires
            old(self).wf(),
        ensures
            final(self).wf(),
            final(self).model() == step(old(self).model(), EventModel::Settled(v, s@)),
            applied == lane_get(old(self).model().lanes, settle_lane(s@)).contains(v),
    {
        let ghost sm = s@;
        let k = lane_of_settlement(&s);
        let hit = self.dispatcher.consume(k, v);
        if hit {
            let err = apply(&mut self.registry, s);
            self.messages.set(k, err);
            proof {
                let pre = old(self).model();
                let post = step(pre, EventModel::Settled(v, sm));
                assert(lane_get(pre.lanes, k).contains(v));
                assert(self.model().lanes == post.lanes);
                assert(self.model().msgs == post.msgs);
                assert(self.model() == post);
            }
            true
        } else {
            proof {
                let pre = old(self).model();
                assert(!lane_get(pre.lanes, k).contains(v));
                assert(self.model().lanes == pre.lanes) by {
                    assert(without_version(old(self).dispatcher.lane(k), v) == old(
                        self,
                    ).dispatcher.lane(k));
                }
                assert(self.model() == pre);
            }
            false
        }
    }

    /// How many versions the dispatcher has handed out so far.
    pub fn versions_used(&self) -> (v: u64)
        ensures
            v == self.model().next_version,
    {
        self.dispatcher.versions_used()
    }

    /// The user-visible message for lane `k`, if one is surfaced.
    pub fn message_of(&self, k: LaneKind) -> (m: Option<String>)
        ensures
            text_model(m) == msg_get(self.model().msgs, k),
    {
        self.messages.get(k)
    }

    /// How many calls are in flight on lane `k`.
    pub fn pending_on(&self, k: LaneKind) -> (n: usize)
        ensures
            n == lane_get(self.model().lanes, k).len(),
    {
        self.dispatcher.pending_count(k)
    }
}

} // verus!
