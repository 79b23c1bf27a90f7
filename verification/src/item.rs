//! The record types the store works with: [`Item`], the stored record;
//! [`ItemQuery`], a predicate selecting records; and [`ItemUpdate`], a
//! partial mutation targeted at one record id.

use vstd::prelude::*;

verus! {

/// The mathematical model of an [`Item`]: its three fields as plain values.
pub ghost struct ItemModel {
    pub id: Seq<char>,
    pub title: Seq<char>,
    pub completed: bool,
}

/// A single stored record. The `id` is assigned by the caller and is the
/// key that lookups and updates match on; `title` is free text.
pub struct Item {
    pub id: String,
    pub title: String,
    pub completed: bool,
}

impl View for Item {
    type V = ItemModel;

    open spec fn view(&self) -> ItemModel {
        ItemModel { id: self.id@, title: self.title@, completed: self.completed }
    }
}

impl DeepView for Item {
    type V = ItemModel;

    open spec fn deep_view(&self) -> ItemModel {
        self@
    }
}

impl Clone for Item {
    fn clone(&self) -> (r: Self)
        ensures
            r == *self,
    {
        Item { id: self.id.clone(), title: self.title.clone(), completed: self.completed }
    }
}

/// The in-memory ordered collection of items. Insertion order is preserved
/// and is the iteration order queries and counts see.
pub type ItemList = Vec<Item>;

/// A predicate over items. `EmptyItemQuery` selects every item;
/// `Completed` selects the items whose `completed` flag equals the given one.
#[derive(Clone, Copy)]
pub enum ItemQuery {
    EmptyItemQuery,
    Completed { completed: bool },
}

impl ItemQuery {
    /// What this query selects, over the item's model.
    pub open spec fn spec_matches(self, m: ItemModel) -> bool {
        match self {
            ItemQuery::EmptyItemQuery => true,
            ItemQuery::Completed { completed } => m.completed == completed,
        }
    }

    /// Whether `item` satisfies this query.
    pub fn matches(&self, item: &Item) -> (r: bool)
        ensures
            r == self.spec_matches(item@),
    {
        match self {
            ItemQuery::EmptyItemQuery => true,
            ItemQuery::Completed { completed } => item.completed == *completed,
        }
    }
}

/// The mathematical model of an [`ItemUpdate`].
pub ghost struct UpdateModel {
    pub id: Seq<char>,
    pub title: Option<Seq<char>>,
    pub completed: Option<bool>,
}

/// The item that results from applying the update `u` to the item `m`:
/// fields left unset by `u` are unchanged, and the id is never changed.
pub open spec fn apply_update(m: ItemModel, u: UpdateModel) -> ItemModel {
    ItemModel {
        id: m.id,
        title: match u.title {
            Some(t) => t,
            None => m.title,
        },
        completed: match u.completed {
            Some(c) => c,
            None => m.completed,
        },
    }
}

/// A partial mutation: the target `id`, and a new value for each field that
/// should change. Fields left `None` are unchanged on the target item.
pub struct ItemUpdate {
    pub id: String,
    pub title: Option<String>,
    pub completed: Option<bool>,
}

impl View for ItemUpdate {
    type V = UpdateModel;

    open spec fn view(&self) -> UpdateModel {
        UpdateModel {
            id: self.id@,
            title: match self.title {
                Some(t) => Some(t@),
                None => None,
            },
            completed: self.completed,
        }
    }
}

impl ItemUpdate {
    /// The id of the item this update targets.
    pub fn id(&self) -> (r: &String)
        ensures
            r@ == self@.id,
    {
        &self.id
    }
}

impl Item {
    /// The item that results from applying `u` to this item.
    pub fn apply(&self, u: &ItemUpdate) -> (r: Item)
        ensures
            r@ == apply_update(self@, u@),
    {
        Item {
            id: self.id.clone(),
            title: match &u.title {
                Some(t) => t.clone(),
                None => self.title.clone(),
            },
            completed: match u.completed {
                Some(c) => c,
                None => self.completed,
            },
        }
    }
}

} // verus!
