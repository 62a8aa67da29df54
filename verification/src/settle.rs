use vstd::prelude::*;
use crate::item::{
    TodoItem, ItemModel, ItemEdit, EditModel, edit_model, models_of, contains_id, id_index,
    unique_ids,
};
use crate::registry::{Registry, keeps_disposals};

verus! {

/// An opaque failure reported by the remote store; its message is surfaced
/// verbatim, scoped to the intent kind that triggered the call.
pub struct StoreError {
    pub message: String,
}

impl Clone for StoreError {
    fn clone(&self) -> (r: Self)
        ensures
            r@ == self@,
    {
        StoreError { message: self.message.clone() }
    }
}

impl View for StoreError {
    type V = Seq<char>;

    open spec fn view(&self) -> Seq<char> {
        self.message@
    }
}

/// The success payload of a toggle call: the store may answer with the full
/// updated record or with the bare identity.
pub enum ToggleReply {
    Full(TodoItem),
    Bare(u32),
}

/// Mathematical image of a [`ToggleReply`].
pub enum ToggleModel {
    Full(ItemModel),
    Bare(u32),
}

impl View for ToggleReply {
    type V = ToggleModel;

    open spec fn view(&self) -> ToggleModel {
        match self {
            ToggleReply::Full(t) => ToggleModel::Full(t@),
            ToggleReply::Bare(id) => ToggleModel::Bare(*id),
        }
    }
}

/// The settled outcome of one dispatched call, one variant per kind.
pub enum Settlement {
    /// The initial load answered with the full stored sequence.
    Loaded(Result<Vec<TodoItem>, StoreError>),
    /// A text search answered with the matching records; the registry is
    /// not involved.
    Searched(Result<Vec<TodoItem>, StoreError>),
    /// An add answered with the freshly stored record.
    Added(Result<TodoItem, StoreError>),
    /// A toggle answered with the updated record or its identity.
    Toggled(Result<ToggleReply, StoreError>),
    /// A delete answered with the removed identity.
    Deleted(Result<u32, StoreError>),
    /// Marking every record done succeeded or failed.
    MarkedAllDone(Result<(), StoreError>),
    /// Marking every record undone succeeded or failed.
    MarkedAllUndone(Result<(), StoreError>),
    /// Deleting every record succeeded or failed.
    Cleared(Result<(), StoreError>),
}

/// Mathematical image of a [`Settlement`].
pub enum SettleModel {
    Loaded(Result<Seq<ItemModel>, Seq<char>>),
    Searched(Result<Seq<ItemModel>, Seq<char>>),
    Added(Result<ItemModel, Seq<char>>),
    Toggled(Result<ToggleModel, Seq<char>>),
    Deleted(Result<u32, Seq<char>>),
    MarkedAllDone(Result<(), Seq<char>>),
    MarkedAllUndone(Result<(), Seq<char>>),
    Cleared(Result<(), Seq<char>>),
}

impl View for Settlement {
    type V = SettleModel;

    open spec fn view(&self) -> SettleModel {
        match self {
            Settlement::Loaded(Ok(v)) => SettleModel::Loaded(Ok(models_of(v@))),
            Settlement::Loaded(Err(e)) => SettleModel::Loaded(Err(e@)),
            Settlement::Searched(Ok(v)) => SettleModel::Searched(Ok(models_of(v@))),
            Settlement::Searched(Err(e)) => SettleModel::Searched(Err(e@)),
            Settlement::Added(Ok(t)) => SettleModel::Added(Ok(t@)),
            Settlement::Added(Err(e)) => SettleModel::Added(Err(e@)),
            Settlement::Toggled(Ok(r)) => SettleModel::Toggled(Ok(r@)),
            Settlement::Toggled(Err(e)) => SettleModel::Toggled(Err(e@)),
            Settlement::Deleted(Ok(id)) => SettleModel::Deleted(Ok(*id)),
            Settlement::Deleted(Err(e)) => SettleModel::Deleted(Err(e@)),
            Settlement::MarkedAllDone(Ok(u)) => SettleModel::MarkedAllDone(Ok(*u)),
            Settlement::MarkedAllDone(Err(e)) => SettleModel::MarkedAllDone(Err(e@)),
            Settlement::MarkedAllUndone(Ok(u)) => SettleModel::MarkedAllUndone(Ok(*u)),
            Settlement::MarkedAllUndone(Err(e)) => SettleModel::MarkedAllUndone(Err(e@)),
            Settlement::Cleared(Ok(u)) => SettleModel::Cleared(Ok(*u)),
            Settlement::Cleared(Err(e)) => SettleModel::Cleared(Err(e@)),
        }
    }
}

/// Whether a loaded batch may be appended: its identities are pairwise
/// distinct and none is already present.
pub open spec fn load_admissible(items: Seq<ItemModel>, batch: Seq<ItemModel>) -> bool {
    &&& unique_ids(batch)
    &&& forall|i: int| 0 <= i < batch.len() ==> !contains_id(items, (#[trigger] batch[i]).id)
}

/// The registry sequence after one settlement is applied: the per-kind
/// reconciliation rules. Errors never mutate; a settlement whose target
/// identity is absent is a benign no-op; success payloads insert, edit,
/// remove or clear exactly as the rules table directs.
pub open spec fn apply_model(items: Seq<ItemModel>, s: SettleModel) -> Seq<ItemModel> {
    match s {
        SettleModel::Loaded(Ok(batch)) => if load_admissible(items, batch) {
            items + batch
        } else {
            items
        },
        SettleModel::Added(Ok(t)) => if !contains_id(items, t.id) {
            items.push(t)
        } else {
            items
        },
        SettleModel::Toggled(Ok(ToggleModel::Bare(id))) => if contains_id(items, id) {
            items.update(
                id_index(items, id),
                edit_model(items[id_index(items, id)], EditModel::FlipDone),
            )
        } else {
            items
        },
        SettleModel::Toggled(Ok(ToggleModel::Full(t))) => if contains_id(items, t.id) {
            items.update(
                id_index(items, t.id),
                edit_model(items[id_index(items, t.id)], EditModel::Replace(t)),
            )
        } else {
            items
        },
        SettleModel::Deleted(Ok(id)) => if contains_id(items, id) {
            items.remove(id_index(items, id))
        } else {
            items
        },
        SettleModel::MarkedAllDone(Ok(_)) => items.map_values(
            |it: ItemModel| edit_model(it, EditModel::SetDone(true)),
        ),
        SettleModel::MarkedAllUndone(Ok(_)) => items.map_values(
            |it: ItemModel| edit_model(it, EditModel::SetDone(false)),
        ),
        SettleModel::Cleared(Ok(_)) => Seq::<ItemModel>::empty(),
        SettleModel::Searched(Ok(_)) => items,
        SettleModel::Loaded(Err(_)) => items,
        SettleModel::Searched(Err(_)) => items,
        SettleModel::Added(Err(_)) => items,
        SettleModel::Toggled(Err(_)) => items,
        SettleModel::Deleted(Err(_)) => items,
        SettleModel::MarkedAllDone(Err(_)) => items,
        SettleModel::MarkedAllUndone(Err(_)) => items,
        SettleModel::Cleared(Err(_)) => items,
    }
}

/// The error carried by a settlement, if it failed.
pub open spec fn settle_error(s: SettleModel) -> Option<Seq<char>> {
    match s {
        SettleModel::Loaded(Err(e)) => Some(e),
        SettleModel::Searched(Err(e)) => Some(e),
        SettleModel::Added(Err(e)) => Some(e),
        SettleModel::Toggled(Err(e)) => Some(e),
        SettleModel::Deleted(Err(e)) => Some(e),
        SettleModel::MarkedAllDone(Err(e)) => Some(e),
        SettleModel::MarkedAllUndone(Err(e)) => Some(e),
        SettleModel::Cleared(Err(e)) => Some(e),
        _ => None,
    }
}

/// Idempotence: applying a successful MarkAllDone twice in a row leaves
/// the same sequence as applying it once.
pub proof fn lemma_mark_all_done_idempotent(items: Seq<ItemModel>)
    ensures
        apply_model(
            apply_model(items, SettleModel::MarkedAllDone(Ok(()))),
            SettleModel::MarkedAllDone(Ok(())),
        ) == apply_model(items, SettleModel::MarkedAllDone(Ok(()))),
{
    let once = apply_model(items, SettleModel::MarkedAllDone(Ok(())));
    let twice = apply_model(once, SettleModel::MarkedAllDone(Ok(())));
    assert(twice =~= once);
}

/// Round trip: a successful add with a fresh identity appends exactly the
/// stored record at the tail, so listing the registry afterwards shows its
/// task text and completion flag unchanged.
pub proof fn lemma_added_is_listed(items: Seq<ItemModel>, t: ItemModel)
    requires
        !contains_id(items, t.id),
    ensures
        apply_model(items, SettleModel::Added(Ok(t))) == items.push(t),
        apply_model(items, SettleModel::Added(Ok(t)))[items.len() as int] == t,
{
}

/// Whether the settlement targets the record with identity `id`.
pub open spec fn references_id(s: SettleModel, id: u32) -> bool {
    match s {
        SettleModel::Toggled(Ok(ToggleModel::Bare(i))) => i == id,
        SettleModel::Toggled(Ok(ToggleModel::Full(t))) => t.id == id,
        SettleModel::Deleted(Ok(i)) => i == id,
        _ => false,
    }
}

/// Whether the settlement would put a record with identity `id` into the
/// registry. The store assigns fresh identities, so after a removal no
/// such settlement arrives for the removed one.
pub open spec fn reintroduces_id(s: SettleModel, id: u32) -> bool {
    match s {
        SettleModel::Added(Ok(t)) => t.id == id,
        SettleModel::Loaded(Ok(batch)) => contains_id(batch, id),
        _ => false,
    }
}

/// Disposal finality, first half: once the record with identity `id` is
/// gone, a settlement that references it is a guarded no-op — the
/// registry sequence is unchanged.
pub proof fn lemma_stale_reference_is_no_op(items: Seq<ItemModel>, s: SettleModel, id: u32)
    requires
        !contains_id(items, id),
        references_id(s, id),
    ensures
        apply_model(items, s) == items,
{
}

/// Disposal finality, second half: once the record with identity `id` is
/// gone, it stays gone under every settlement that does not carry that
/// identity back in.
pub proof fn lemma_gone_id_stays_gone(items: Seq<ItemModel>, s: SettleModel, id: u32)
    requires
        !contains_id(items, id),
        !reintroduces_id(s, id),
    ensures
        !contains_id(apply_model(items, s), id),
{
    let out = apply_model(items, s);
    if contains_id(out, id) {
        let i = choose|i: int| 0 <= i < out.len() && out[i].id == id;
        match s {
            SettleModel::Loaded(Ok(batch)) => {
                if load_admissible(items, batch) {
                    if i < items.len() {
                        assert(items[i].id == id);
                    } else {
                        assert(batch[i - items.len()].id == id);
                        assert(contains_id(batch, id));
                    }
                }
            },
            SettleModel::Added(Ok(t)) => {
                if !contains_id(items, t.id) {
                    if i < items.len() {
                        assert(items[i].id == id);
                    }
                }
            },
            SettleModel::Toggled(Ok(ToggleModel::Bare(tid))) => {
                assert(items[i].id == id);
            },
            SettleModel::Toggled(Ok(ToggleModel::Full(t))) => {
                assert(items[i].id == id);
            },
            SettleModel::Deleted(Ok(did)) => {
                if contains_id(items, did) {
                    let j = id_index(items, did);
                    if i < j {
                        assert(items[i].id == id);
                    } else {
                        assert(items[i + 1].id == id);
                    }
                }
            },
            SettleModel::MarkedAllDone(Ok(u)) => {
                assert(items[i].id == id);
            },
            SettleModel::MarkedAllUndone(Ok(u)) => {
                assert(items[i].id == id);
            },
            _ => {
                assert(items[i].id == id);
            },
        }
    }
}

/// Whether `batch` may be appended to `registry`, checked at run time.
fn batch_admissible(registry: &Registry, batch: &Vec<TodoItem>) -> (b: bool)
    requires
        registry.wf(),
    ensures
        b == load_admissible(registry.items(), models_of(batch@)),
{
    let n = batch.len();
    let mut i: usize = 0;
    while i < n
        invariant
            registry.wf(),
            n == batch@.len(),
            i <= n,
            forall|a: int, b2: int| 0 <= a < b2 < i ==> models_of(batch@)[a].id != models_of(
                batch@,
            )[b2].id,
            forall|a: int|
                0 <= a < i ==> !contains_id(registry.items(), (#[trigger] models_of(batch@)[a]).id),
        decreases n - i,
    {
        let id = batch[i].id;
        proof {
            assert(models_of(batch@)[i as int] == batch@[i as int]@);
        }
        if registry.has_id(id) {
            proof {
                assert(contains_id(registry.items(), models_of(batch@)[i as int].id));
            }
            return false;
        }
        let mut j: usize = 0;
        while j < i
            invariant
                n == batch@.len(),
                j <= i < n,
                id == batch@[i as int].id,
                forall|a: int| 0 <= a < j ==> models_of(batch@)[a].id != models_of(
                    batch@,
                )[i as int].id,
            decreases i - j,
        {
            proof {
                assert(models_of(batch@)[j as int] == batch@[j as int]@);
                assert(models_of(batch@)[i as int] == batch@[i as int]@);
            }
            if batch[j].id == id {
                proof {
                    assert(!unique_ids(models_of(batch@))) by {
                        if unique_ids(models_of(batch@)) {
                            assert(models_of(batch@)[j as int].id != models_of(
                                batch@,
                            )[i as int].id);
                        }
                    }
                }
                return false;
            }
            j += 1;
        }
        i += 1;
    }
    true
}

/// Applies one settled result to the registry: the reconciliation step.
///
/// Success payloads mutate the registry as the per-kind rules direct; a
/// failed settlement leaves the registry untouched and hands its error back
/// to be surfaced; a settlement whose target identity is gone is a benign
/// no-op. Disposed handles stay disposed whatever arrives.
pub fn apply(registry: &mut Registry, s: Settlement) -> (err: Option<StoreError>)
    requires
        old(registry).wf(),
    ensures
        final(registry).wf(),
        final(registry).items() == apply_model(old(registry).items(), s@),
        keeps_disposals(*old(registry), *final(registry)),
        match err {
            Some(e) => settle_error(s@) == Some(e@),
            None => settle_error(s@) is None,
        },
{
    match s {
        Settlement::Loaded(Ok(batch)) => {
            if batch_admissible(registry, &batch) {
                proof {
                    assert forall|i: int| 0 <= i < batch@.len() implies !contains_id(
                        registry.items(),
                        (#[trigger] batch@[i])@.id,
                    ) by {
                        assert(models_of(batch@)[i] == batch@[i]@);
                    }
                }
                registry.load(batch);
            }
            None
        },
        Settlement::Searched(Ok(_)) => None,
        Settlement::Added(Ok(t)) => {
            if !registry.has_id(t.id) {
                registry.insert(t);
            }
            None
        },
        Settlement::Toggled(Ok(ToggleReply::Bare(id))) => {
            registry.update(id, ItemEdit::FlipDone);
            None
        },
        Settlement::Toggled(Ok(ToggleReply::Full(t))) => {
            let id = t.id;
            registry.update(id, ItemEdit::Replace(t));
            None
        },
        Settlement::Deleted(Ok(id)) => {
            registry.remove(id);
            None
        },
        Settlement::MarkedAllDone(Ok(_)) => {
            registry.update_all(ItemEdit::SetDone(true));
            None
        },
        Settlement::MarkedAllUndone(Ok(_)) => {
            registry.update_all(ItemEdit::SetDone(false));
            None
        },
        Settlement::Cleared(Ok(_)) => {
            registry.clear();
            None
        },
        Settlement::Loaded(Err(e)) => Some(e),
        Settlement::Searched(Err(e)) => Some(e),
        Settlement::Added(Err(e)) => Some(e),
        Settlement::Toggled(Err(e)) => Some(e),
        Settlement::Deleted(Err(e)) => Some(e),
        Settlement::MarkedAllDone(Err(e)) => Some(e),
        Settlement::MarkedAllUndone(Err(e)) => Some(e),
        Settlement::Cleared(Err(e)) => Some(e),
    }
}

} // verus!
