use vstd::prelude::*;
use vstd::pervasive::unreached;
use crate::item::{
    TodoItem, ItemModel, ItemEdit, edit_model, models_of, contains_id, id_index, unique_ids,
    apply_edit,
};

verus! {

/// The arena slot behind one record handle: live until the handle is
/// disposed. A disposed slot is never reused, so disposal is final.
pub enum HandleState {
    Live(TodoItem),
    Disposed,
}

/// The ordered, keyed collection of record handles.
///
/// Handles live in an arena of slots with explicit free-on-remove; `order`
/// lists the slots of the undisposed handles in registry order. Disposing a
/// handle and unlinking it from the order happen in one call, never split.
pub struct Registry {
    slots: Vec<HandleState>,
    order: Vec<usize>,
}

impl Registry {
    /// How many slots the arena has handed out, disposed ones included.
    pub closed spec fn slot_count(self) -> int {
        self.slots@.len() as int
    }

    /// Whether slot `k` still holds an undisposed handle.
    pub closed spec fn slot_live(self, k: int) -> bool {
        self.slots@[k] is Live
    }

    spec fn slot_item(self, k: int) -> ItemModel {
        (self.slots@[k]->Live_0)@
    }

    /// The registry sequence: the records of the undisposed handles in order.
    pub closed spec fn items(self) -> Seq<ItemModel> {
        Seq::new(self.order@.len(), |i: int| self.slot_item(self.order@[i] as int))
    }

    /// Well-formedness: the order lists distinct live slots, identities are
    /// unique, and a handle is reachable if and only if it is not disposed.
    pub closed spec fn wf(self) -> bool {
        &&& forall|i: int|
            0 <= i < self.order@.len() ==> (#[trigger] self.order@[i]) < self.slots@.len()
                && self.slot_live(self.order@[i] as int)
        &&& forall|i: int, j: int|
            0 <= i < j < self.order@.len() ==> self.order@[i] != self.order@[j]
        &&& unique_ids(self.items())
        &&& forall|k: int|
            0 <= k < self.slots@.len() && #[trigger] self.slot_live(k) ==> exists|i: int|
                0 <= i < self.order@.len() && (#[trigger] self.order@[i]) as int == k
    }
}

/// Slots already disposed stay disposed, and no slot leaves the arena:
/// every operation of the registry keeps this.
pub open spec fn keeps_disposals(pre: Registry, post: Registry) -> bool {
    &&& pre.slot_count() <= post.slot_count()
    &&& forall|k: int|
        0 <= k < pre.slot_count() && !pre.slot_live(k) ==> !(#[trigger] post.slot_live(k))
}

impl Registry {
    /// An empty registry.
    pub fn new() -> (r: Registry)
        ensures
            r.wf(),
            r.items() == Seq::<ItemModel>::empty(),
            r.slot_count() == 0,
    {
        let r = Registry { slots: Vec::new(), order: Vec::new() };
        proof {
            assert(r.items() =~= Seq::<ItemModel>::empty());
        }
        r
    }

    /// The number of records in the registry.
    pub fn len(&self) -> (n: usize)
        ensures
            n == self.items().len(),
    {
        self.order.len()
    }

    /// A reference to the `i`-th record in registry order.
    pub fn item_at(&self, i: usize) -> (r: &TodoItem)
        requires
            self.wf(),
            i < self.items().len(),
        ensures
            r@ == self.items()[i as int],
    {
        let k = self.order[i];
        proof {
            assert(self.slot_live(k as int));
        }
        match &self.slots[k] {
            HandleState::Live(t) => t,
            HandleState::Disposed => unreached(),
        }
    }

    /// The position of the record with identity `id`, if it is present.
    fn position_of(&self, id: u32) -> (r: Option<usize>)
        requires
            self.wf(),
        ensures
            match r {
                Some(i) => i < self.items().len() && self.items()[i as int].id == id,
                None => !contains_id(self.items(), id),
            },
    {
        let n = self.order.len();
        let mut i: usize = 0;
        while i < n
            invariant
                self.wf(),
                n == self.items().len(),
                i <= n,
                forall|j: int| 0 <= j < i ==> self.items()[j].id != id,
            decreases n - i,
        {
            let k = self.order[i];
            proof {
                assert(self.slot_live(k as int));
            }
            let hit = match &self.slots[k] {
                HandleState::Live(t) => t.id == id,
                HandleState::Disposed => unreached(),
            };
            if hit {
                proof {
                    assert(self.items()[i as int] == self.slot_item(self.order@[i as int] as int));
                }
                return Some(i);
            }
            i += 1;
        }
        None
    }

    /// Whether a record with identity `id` is present.
    pub fn has_id(&self, id: u32) -> (b: bool)
        requires
            self.wf(),
        ensures
            b == contains_id(self.items(), id),
    {
        match self.position_of(id) {
            Some(i) => {
                proof {
                    assert(contains_id(self.items(), id)) by {
                        assert(self.items()[i as int].id == id);
                    }
                }
                true
            },
            None => false,
        }
    }

    /// Appends one record at the tail, under a fresh handle.
    pub fn insert(&mut self, item: TodoItem)
        requires
            old(self).wf(),
            !contains_id(old(self).items(), item@.id),
        ensures
            final(self).wf(),
            final(self).items() == old(self).items().push(item@),
            keeps_disposals(*old(self), *final(self)),
            final(self).slot_count() == old(self).slot_count() + 1,
            forall|k: int|
                0 <= k < old(self).slot_count() ==> final(self).slot_live(k) == old(
                    self,
                ).slot_live(k),
    {
        let k = self.slots.len();
        let ghost pre = *self;
        self.slots.push(HandleState::Live(item));
        self.order.push(k);
        proof {
            assert(self.items() =~= pre.items().push(item@)) by {
                assert forall|i: int| 0 <= i < pre.order@.len() implies self.items()[i]
                    == pre.items()[i] by {
                    assert(self.order@[i] == pre.order@[i]);
                    assert((pre.order@[i] as int) < pre.slots@.len());
                }
                assert(self.items()[pre.order@.len() as int] == item@);
            }
            assert(self.wf()) by {
                assert forall|i: int, j: int|
                    0 <= i < j < self.items().len() implies self.items()[i].id
                    != self.items()[j].id by {
                    if j < pre.items().len() {
                        assert(pre.items()[i].id != pre.items()[j].id);
                    } else {
                        assert(self.items()[j] == item@);
                        assert(pre.items()[i].id != item@.id);
                    }
                }
                assert forall|k2: int|
                    0 <= k2 < self.slots@.len() && #[trigger] self.slot_live(k2) implies exists|
                    i: int,
                |
                    0 <= i < self.order@.len() && (#[trigger] self.order@[i]) as int == k2 by {
                    if k2 < pre.slots@.len() {
                        assert(pre.slot_live(k2));
                        let i = choose|i: int|
                            0 <= i < pre.order@.len() && (#[trigger] pre.order@[i]) as int == k2;
                        assert((self.order@[i]) as int == k2);
                    } else {
                        assert((self.order@[pre.order@.len() as int]) as int == k2);
                    }
                }
            }
        }
    }

    /// Appends one record per entry of `batch`, preserving the input order.
    pub fn load(&mut self, batch: Vec<TodoItem>)
        requires
            old(self).wf(),
            unique_ids(models_of(batch@)),
            forall|i: int|
                0 <= i < batch@.len() ==> !contains_id(
                    old(self).items(),
                    (#[trigger] batch@[i])@.id,
                ),
        ensures
            final(self).wf(),
            final(self).items() == old(self).items() + models_of(batch@),
            keeps_disposals(*old(self), *final(self)),
            final(self).slot_count() == old(self).slot_count() + batch@.len(),
            forall|k: int|
                0 <= k < old(self).slot_count() ==> final(self).slot_live(k) == old(
                    self,
                ).slot_live(k),
    {
        let ghost pre = *self;
        let n = batch.len();
        let mut idx: usize = 0;
        while idx < n
            invariant
                self.wf(),
                n == batch@.len(),
                idx <= n,
                unique_ids(models_of(batch@)),
                forall|i: int|
                    0 <= i < batch@.len() ==> !contains_id(pre.items(), (#[trigger] batch@[i])@.id),
                self.items() == pre.items() + models_of(batch@.take(idx as int)),
                keeps_disposals(pre, *self),
                self.slot_count() == pre.slot_count() + idx,
                forall|k: int| 0 <= k < pre.slot_count() ==> self.slot_live(k) == pre.slot_live(k),
            decreases n - idx,
        {
            let item = batch[idx].clone();
            proof {
                assert(models_of(batch@)[idx as int] == item@);
                assert(!contains_id(self.items(), item@.id)) by {
                    if contains_id(self.items(), item@.id) {
                        let i = choose|i: int|
                            0 <= i < self.items().len() && self.items()[i].id == item@.id;
                        if i < pre.items().len() {
                            assert(contains_id(pre.items(), batch@[idx as int]@.id));
                        } else {
                            let j = i - pre.items().len();
                            assert(models_of(batch@.take(idx as int))[j] == models_of(batch@)[j]);
                            assert(models_of(batch@)[j].id != models_of(batch@)[idx as int].id);
                        }
                    }
                }
            }
            self.insert(item);
            idx += 1;
            proof {
                assert(self.items() =~= pre.items() + models_of(batch@.take(idx as int)));
            }
        }
        proof {
            assert(batch@.take(n as int) =~= batch@);
            assert(self.items() == pre.items() + models_of(batch@));
        }
    }

    /// Locates the record with identity `id`; if present, disposes its
    /// handle and removes it from the sequence in this one step; if absent,
    /// does nothing.
    pub fn remove(&mut self, id: u32)
        requires
            old(self).wf(),
        ensures
            final(self).wf(),
            keeps_disposals(*old(self), *final(self)),
            final(self).slot_count() == old(self).slot_count(),
            contains_id(old(self).items(), id) ==> final(self).items() == old(
                self,
            ).items().remove(id_index(old(self).items(), id)),
            !contains_id(final(self).items(), id),
            !contains_id(old(self).items(), id) ==> *final(self) == *old(self),
    {
        let pos = self.position_of(id);
        match pos {
            None => {
                proof {
                    assert(!contains_id(self.items(), id));
                }
            },
            Some(i) => {
                let ghost pre = *self;
                let k = self.order[i];
                proof {
                    assert(pre.order@[i as int] == k);
                    assert((k as int) < pre.slots@.len());
                }
                self.slots[k] = HandleState::Disposed;
                self.order.remove(i);
                proof {
                    assert(contains_id(pre.items(), id)) by {
                        assert(pre.items()[i as int].id == id);
                    }
                    assert(id_index(pre.items(), id) == i as int) by {
                        let j = id_index(pre.items(), id);
                        assert(0 <= j < pre.items().len() && pre.items()[j].id == id);
                        if j != i as int {
                            assert(pre.items()[i as int].id != pre.items()[j].id);
                        }
                    }
                    assert(self.items() =~= pre.items().remove(i as int)) by {
                        assert forall|m: int| 0 <= m < self.order@.len() implies self.items()[m]
                            == pre.items().remove(i as int)[m] by {
                            if m < i as int {
                                assert(self.order@[m] == pre.order@[m]);
                                assert(pre.order@[m] != pre.order@[i as int]);
                            } else {
                                assert(self.order@[m] == pre.order@[m + 1]);
                                assert(pre.order@[m + 1] != pre.order@[i as int]);
                            }
                        }
                    }
                    assert(!self.slot_live(k as int));
                    assert(self.wf()) by {
                        assert forall|m: int| 0 <= m < self.order@.len() implies (
                        #[trigger] self.order@[m]) < self.slots@.len() && self.slot_live(
                            self.order@[m] as int,
                        ) by {
                            if m < i as int {
                                assert(self.order@[m] == pre.order@[m]);
                                assert(pre.order@[m] != pre.order@[i as int]);
                            } else {
                                assert(self.order@[m] == pre.order@[m + 1]);
                                assert(pre.order@[m + 1] != pre.order@[i as int]);
                            }
                        }
                        assert forall|k2: int|
                            0 <= k2 < self.slots@.len() && #[trigger] self.slot_live(k2) implies
                            exists|m: int|
                                0 <= m < self.order@.len() && (#[trigger] self.order@[m]) as int
                                    == k2 by {
                            assert(k2 != k as int);
                            assert(pre.slot_live(k2)) by {
                                assert(self.slots@[k2] == pre.slots@[k2]);
                            }
                            let m = choose|m: int|
                                0 <= m < pre.order@.len() && (#[trigger] pre.order@[m]) as int
                                    == k2;
                            assert(pre.order@[i as int] as int == k as int);
                            assert(m != i as int);
                            if m < i as int {
                                assert(self.order@[m] as int == k2);
                            } else {
                                assert(self.order@[m - 1] == pre.order@[m]);
                                assert(self.order@[m - 1] as int == k2);
                            }
                        }
                    }
                    assert(!contains_id(self.items(), id)) by {
                        if contains_id(self.items(), id) {
                            let m = choose|m: int|
                                0 <= m < self.items().len() && self.items()[m].id == id;
                            if m < i as int {
                                assert(pre.items()[m].id != pre.items()[i as int].id);
                            } else {
                                assert(self.items()[m] == pre.items()[m + 1]);
                                assert(pre.items()[i as int].id != pre.items()[m + 1].id);
                            }
                        }
                    }
                }
            },
        }
    }

    /// Locates the record with identity `id` and mutates it in place,
    /// without disposing or reordering its handle; absent identities are a
    /// no-op.
    pub fn update(&mut self, id: u32, edit: ItemEdit)
        requires
            old(self).wf(),
        ensures
            final(self).wf(),
            keeps_disposals(*old(self), *final(self)),
            final(self).slot_count() == old(self).slot_count(),
            forall|k: int|
                0 <= k < old(self).slot_count() ==> final(self).slot_live(k) == old(
                    self,
                ).slot_live(k),
            contains_id(old(self).items(), id) ==> final(self).items() == old(
                self,
            ).items().update(
                id_index(old(self).items(), id),
                edit_model(old(self).items()[id_index(old(self).items(), id)], edit@),
            ),
            !contains_id(old(self).items(), id) ==> *final(self) == *old(self),
    {
        let pos = self.position_of(id);
        match pos {
            None => {
                proof {
                    assert(!contains_id(self.items(), id));
                }
            },
            Some(i) => {
                let ghost pre = *self;
                let k = self.order[i];
                proof {
                    assert(pre.order@[i as int] == k);
                    assert((k as int) < pre.slots@.len());
                    assert(pre.slot_live(k as int));
                    assert(pre.slot_item(k as int) == pre.items()[i as int]);
                }
                let updated = match &self.slots[k] {
                    HandleState::Live(t) => {
                        let mut c = t.clone();
                        apply_edit(&mut c, &edit);
                        HandleState::Live(c)
                    },
                    HandleState::Disposed => unreached(),
                };
                self.slots[k] = updated;
                proof {
                    assert(contains_id(pre.items(), id)) by {
                        assert(pre.items()[i as int].id == id);
                    }
                    assert(id_index(pre.items(), id) == i as int) by {
                        let j = id_index(pre.items(), id);
                        assert(0 <= j < pre.items().len() && pre.items()[j].id == id);
                        if j != i as int {
                            assert(pre.items()[i as int].id != pre.items()[j].id);
                        }
                    }
                    let target = edit_model(pre.items()[i as int], edit@);
                    assert(self.slot_item(k as int) == target);
                    assert(self.items() =~= pre.items().update(i as int, target)) by {
                        assert forall|m: int| 0 <= m < self.order@.len() implies self.items()[m]
                            == pre.items().update(i as int, target)[m] by {
                            if m != i as int {
                                assert(pre.order@[m] != pre.order@[i as int]);
                                assert(self.slots@[pre.order@[m] as int] == pre.slots@[pre.order@[m]
                                    as int]);
                            }
                        }
                    }
                    assert(self.wf()) by {
                        assert forall|m: int| 0 <= m < self.order@.len() implies (
                        #[trigger] self.order@[m]) < self.slots@.len() && self.slot_live(
                            self.order@[m] as int,
                        ) by {
                            if m != i as int {
                                assert(pre.order@[m] != pre.order@[i as int]);
                                assert(self.slots@[pre.order@[m] as int] == pre.slots@[pre.order@[m]
                                    as int]);
                            }
                        }
                        assert forall|a: int, b: int|
                            0 <= a < b < self.items().len() implies self.items()[a].id
                            != self.items()[b].id by {
                            assert(self.items()[a].id == pre.items()[a].id);
                            assert(self.items()[b].id == pre.items()[b].id);
                        }
                        assert forall|k2: int|
                            0 <= k2 < self.slots@.len() && #[trigger] self.slot_live(k2) implies
                            exists|m: int|
                                0 <= m < self.order@.len() && (#[trigger] self.order@[m]) as int
                                    == k2 by {
                            assert(pre.slot_live(k2)) by {
                                if k2 != k as int {
                                    assert(self.slots@[k2] == pre.slots@[k2]);
                                }
                            }
                            let m = choose|m: int|
                                0 <= m < pre.order@.len() && (#[trigger] pre.order@[m]) as int
                                    == k2;
                            assert(self.order@[m] as int == k2);
                        }
                    }
                }
            },
        }
    }

    /// Applies `edit` to every record, in place; never disposes a handle.
    pub fn update_all(&mut self, edit: ItemEdit)
        requires
            old(self).wf(),
        ensures
            final(self).wf(),
            keeps_disposals(*old(self), *final(self)),
            final(self).slot_count() == old(self).slot_count(),
            forall|k: int|
                0 <= k < old(self).slot_count() ==> final(self).slot_live(k) == old(
                    self,
                ).slot_live(k),
            final(self).items() == old(self).items().map_values(
                |it: ItemModel| edit_model(it, edit@),
            ),
    {
        let ghost pre = *self;
        let n = self.order.len();
        let mut i: usize = 0;
        while i < n
            invariant
                pre.wf(),
                n == pre.order@.len(),
                i <= n,
                self.order == pre.order,
                self.slots@.len() == pre.slots@.len(),
                forall|k2: int|
                    0 <= k2 < pre.slots@.len() && !pre.slot_live(k2) ==> self.slots@[k2]
                        == pre.slots@[k2],
                forall|k2: int|
                    0 <= k2 < pre.slots@.len() ==> #[trigger] self.slot_live(k2) == pre.slot_live(
                        k2,
                    ),
                forall|m: int|
                    0 <= m < i ==> #[trigger] self.items()[m] == edit_model(
                        pre.items()[m],
                        edit@,
                    ),
                forall|m: int| i <= m < n ==> #[trigger] self.items()[m] == pre.items()[m],
            decreases n - i,
        {
            let ghost cur = *self;
            let k = self.order[i];
            proof {
                assert(pre.order@[i as int] == k);
                assert((k as int) < pre.slots@.len());
                assert(pre.slot_live(k as int));
                assert(cur.slot_live(k as int));
                assert(cur.items()[i as int] == pre.items()[i as int]);
                assert(cur.slot_item(k as int) == cur.items()[i as int]);
            }
            let updated = match &self.slots[k] {
                HandleState::Live(t) => {
                    let mut c = t.clone();
                    apply_edit(&mut c, &edit);
                    HandleState::Live(c)
                },
                HandleState::Disposed => unreached(),
            };
            self.slots[k] = updated;
            i += 1;
            proof {
                assert forall|m: int|
                    0 <= m < i implies #[trigger] self.items()[m] == edit_model(
                    pre.items()[m],
                    edit@,
                ) by {
                    if m < i - 1 {
                        assert(cur.items()[m] == edit_model(pre.items()[m], edit@));
                        assert(pre.order@[m] != pre.order@[i - 1]);
                        assert(self.slots@[pre.order@[m] as int] == cur.slots@[pre.order@[m]
                            as int]);
                    } else {
                        assert(self.slot_item(k as int) == edit_model(pre.items()[m], edit@));
                    }
                }
                assert forall|m: int| i <= m < n implies #[trigger] self.items()[m]
                    == pre.items()[m] by {
                    assert(cur.items()[m] == pre.items()[m]);
                    assert(pre.order@[m] != pre.order@[i - 1]);
                    assert(self.slots@[pre.order@[m] as int] == cur.slots@[pre.order@[m] as int]);
                }
                assert forall|k2: int|
                    0 <= k2 < pre.slots@.len() && !pre.slot_live(k2) implies self.slots@[k2]
                    == pre.slots@[k2] by {
                    assert(k2 != k as int);
                    assert(self.slots@[k2] == cur.slots@[k2]);
                }
                assert forall|k2: int|
                    0 <= k2 < pre.slots@.len() implies #[trigger] self.slot_live(k2)
                    == pre.slot_live(k2) by {
                    if k2 != k as int {
                        assert(cur.slot_live(k2) == pre.slot_live(k2));
                        assert(self.slots@[k2] == cur.slots@[k2]);
                    } else {
                        assert(self.slots@[k2] is Live);
                        assert(pre.slot_live(k as int));
                    }
                }
            }
        }
        proof {
            let target = pre.items().map_values(|it: ItemModel| edit_model(it, edit@));
            assert(self.items() =~= target);
            assert(self.wf()) by {
                assert forall|m: int| 0 <= m < self.order@.len() implies (
                #[trigger] self.order@[m]) < self.slots@.len() && self.slot_live(
                    self.order@[m] as int,
                ) by {
                    assert(pre.order@[m] == self.order@[m]);
                    assert(pre.slot_live(pre.order@[m] as int));
                }
                assert forall|a: int, b: int|
                    0 <= a < b < self.items().len() implies self.items()[a].id
                    != self.items()[b].id by {
                    assert(self.items()[a].id == pre.items()[a].id);
                    assert(self.items()[b].id == pre.items()[b].id);
                }
                assert forall|k2: int|
                    0 <= k2 < self.slots@.len() && #[trigger] self.slot_live(k2) implies exists|
                    m: int,
                |
                    0 <= m < self.order@.len() && (#[trigger] self.order@[m]) as int == k2 by {
                    assert(pre.slot_live(k2));
                    let m = choose|m: int|
                        0 <= m < pre.order@.len() && (#[trigger] pre.order@[m]) as int == k2;
                    assert(self.order@[m] as int == k2);
                }
            }
        }
    }

    /// Disposes every handle and empties the registry in one step.
    pub fn clear(&mut self)
        requires
            old(self).wf(),
        ensures
            final(self).wf(),
            keeps_disposals(*old(self), *final(self)),
            final(self).slot_count() == old(self).slot_count(),
            final(self).items() == Seq::<ItemModel>::empty(),
            forall|k: int| 0 <= k < final(self).slot_count() ==> !final(self).slot_live(k),
    {
        let n = self.slots.len();
        let mut k: usize = 0;
        while k < n
            invariant
                n == self.slots@.len(),
                k <= n,
                self.order == old(self).order,
                forall|m: int| 0 <= m < k ==> !self.slot_live(m),
            decreases n - k,
        {
            let ghost cur = *self;
            self.slots[k] = HandleState::Disposed;
            proof {
                assert forall|m: int| 0 <= m < k + 1 implies !self.slot_live(m) by {
                    if m < k {
                        assert(!cur.slot_live(m));
                        assert(self.slots@[m] == cur.slots@[m]);
                    }
                }
            }
            k += 1;
        }
        let ghost cur = *self;
        self.order.clear();
        proof {
            assert(self.items() =~= Seq::<ItemModel>::empty());
            assert forall|m: int| 0 <= m < self.slots@.len() implies !self.slot_live(m) by {
                assert(!cur.slot_live(m));
                assert(self.slots@[m] == cur.slots@[m]);
            }
        }
    }

    /// A copy of the registry sequence as plain records.
    pub fn snapshot(&self) -> (out: Vec<TodoItem>)
        requires
            self.wf(),
        ensures
            models_of(out@) == self.items(),
    {
        let n = self.len();
        let mut out: Vec<TodoItem> = Vec::new();
        let mut i: usize = 0;
        while i < n
            invariant
                self.wf(),
                n == self.items().len(),
                i <= n,
                out@.len() == i,
                forall|j: int| 0 <= j < i ==> (#[trigger] out@[j])@ == self.items()[j],
            decreases n - i,
        {
            out.push(self.item_at(i).clone());
            i += 1;
        }
        proof {
            assert(models_of(out@) =~= self.items());
        }
        out
    }
}

} // verus!
