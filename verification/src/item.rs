use vstd::prelude::*;

verus! {

/// One todo record: a store-assigned identity together with a mutable
/// completion flag and task text. The identity never changes.
pub struct TodoItem {
    pub id: u32,
    pub done: bool,
    pub task: String,
}

/// Mathematical image of a [`TodoItem`]: the task text as a character sequence.
pub struct ItemModel {
    pub id: u32,
    pub done: bool,
    pub task: Seq<char>,
}

impl View for TodoItem {
    type V = ItemModel;

    open spec fn view(&self) -> ItemModel {
        ItemModel { id: self.id, done: self.done, task: self.task@ }
    }
}

impl Clone for TodoItem {
    fn clone(&self) -> (r: Self)
        ensures
            r@ == self@,
    {
        TodoItem { id: self.id, done: self.done, task: self.task.clone() }
    }
}

/// The models of a sequence of records.
pub open spec fn models_of(s: Seq<TodoItem>) -> Seq<ItemModel> {
    s.map_values(|t: TodoItem| t@)
}

/// Whether some record in `items` carries the identity `id`.
pub open spec fn contains_id(items: Seq<ItemModel>, id: u32) -> bool {
    exists|i: int| 0 <= i < items.len() && items[i].id == id
}

/// A position of a record with identity `id`; with unique identities it is
/// the only one.
pub open spec fn id_index(items: Seq<ItemModel>, id: u32) -> int {
    choose|i: int| 0 <= i < items.len() && items[i].id == id
}

/// Pairwise-distinct identities.
pub open spec fn unique_ids(items: Seq<ItemModel>) -> bool {
    forall|i: int, j: int| 0 <= i < j < items.len() ==> items[i].id != items[j].id
}

/// An in-place mutation of one record, with its identity preserved.
pub enum ItemEdit {
    /// Invert the completion flag.
    FlipDone,
    /// Set the completion flag to the given value.
    SetDone(bool),
    /// Take the flag and text of the given record, keeping the identity.
    Replace(TodoItem),
}

/// Mathematical image of an [`ItemEdit`].
pub enum EditModel {
    FlipDone,
    SetDone(bool),
    Replace(ItemModel),
}

impl View for ItemEdit {
    type V = EditModel;

    open spec fn view(&self) -> EditModel {
        match self {
            ItemEdit::FlipDone => EditModel::FlipDone,
            ItemEdit::SetDone(b) => EditModel::SetDone(*b),
            ItemEdit::Replace(t) => EditModel::Replace(t@),
        }
    }
}

/// The record that `edit` makes out of `it`: the identity stays, flag and
/// text change as the edit directs.
pub open spec fn edit_model(it: ItemModel, edit: EditModel) -> ItemModel {
    match edit {
        EditModel::FlipDone => ItemModel { id: it.id, done: !it.done, task: it.task },
        EditModel::SetDone(b) => ItemModel { id: it.id, done: b, task: it.task },
        EditModel::Replace(t) => ItemModel { id: it.id, done: t.done, task: t.task },
    }
}

/// Applies `edit` to `item` in place.
pub fn apply_edit(item: &mut TodoItem, edit: &ItemEdit)
    ensures
        final(item)@ == edit_model(old(item)@, edit@),
{
    match edit {
        ItemEdit::FlipDone => {
            item.done = !item.done;
        },
        ItemEdit::SetDone(b) => {
            item.done = *b;
        },
        ItemEdit::Replace(t) => {
            item.done = t.done;
            item.task = t.task.clone();
        },
    }
}

} // verus!
