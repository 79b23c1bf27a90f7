//! The store: an in-memory ordered collection of items, with the query,
//! mutation and count operations, and the load/flush halves of the
//! write-through protocol against the host's persistent slot.
//!
//! The host reads the slot and hands its value to [`Store::new`]; after
//! every mutation it writes [`Store::flush_value`]'s result back under the
//! store's name. In between, the in-memory collection is the single source
//! of truth.

use crate::codec;
use crate::codec::{parse_items, serialize_items};
use crate::item::{apply_update, Item, ItemList, ItemModel, ItemQuery, ItemUpdate, UpdateModel};
use vstd::prelude::*;

verus! {

/// The predicate a query selects by, as a function over item models.
pub open spec fn matches_pred(query: ItemQuery) -> spec_fn(ItemModel) -> bool {
    |m: ItemModel| query.spec_matches(m)
}

/// The complement of [`matches_pred`]: what a removal by `query` keeps.
pub open spec fn not_matches_pred(query: ItemQuery) -> spec_fn(ItemModel) -> bool {
    |m: ItemModel| !query.spec_matches(m)
}

/// Selects the items whose `completed` flag is set.
pub open spec fn completed_pred() -> spec_fn(ItemModel) -> bool {
    |m: ItemModel| m.completed
}

/// The item at a position after an update: changed by `u` exactly when its
/// id is the one `u` targets.
pub open spec fn spec_updated(m: ItemModel, u: UpdateModel) -> ItemModel {
    if m.id == u.id {
        apply_update(m, u)
    } else {
        m
    }
}

proof fn lemma_filter_push(s: Seq<ItemModel>, x: ItemModel, pred: spec_fn(ItemModel) -> bool)
    ensures
        s.push(x).filter(pred) == if pred(x) {
            s.filter(pred).push(x)
        } else {
            s.filter(pred)
        },
{
    reveal(Seq::filter);
    assert(s.push(x).drop_last() =~= s);
    assert(s.push(x).last() == x);
}

proof fn lemma_filter_all(s: Seq<ItemModel>, pred: spec_fn(ItemModel) -> bool)
    requires
        forall|i: int| 0 <= i < s.len() ==> pred(#[trigger] s[i]),
    ensures
        s.filter(pred) == s,
    decreases s.len(),
{
    reveal(Seq::filter);
    if s.len() == 0 {
        assert(s.filter(pred) =~= s);
    } else {
        lemma_filter_all(s.drop_last(), pred);
        assert(pred(s.last()));
        assert(s.filter(pred) =~= s);
    }
}

proof fn lemma_filter_none(s: Seq<ItemModel>, pred: spec_fn(ItemModel) -> bool)
    requires
        forall|i: int| 0 <= i < s.len() ==> !pred(#[trigger] s[i]),
    ensures
        s.filter(pred) == Seq::<ItemModel>::empty(),
    decreases s.len(),
{
    reveal(Seq::filter);
    if s.len() == 0 {
        assert(s.filter(pred) =~= Seq::<ItemModel>::empty());
    } else {
        lemma_filter_none(s.drop_last(), pred);
        assert(!pred(s.last()));
    }
}

/// Stores items in memory, keyed in the host's persistent slot by `name`.
pub struct Store {
    name: String,
    data: ItemList,
}

impl View for Store {
    type V = Seq<ItemModel>;

    closed spec fn view(&self) -> Seq<ItemModel> {
        self.data.deep_view()
    }
}

impl Store {
    /// The slot key this store was created with.
    pub closed spec fn spec_name(&self) -> Seq<char> {
        self.name@
    }

    /// The slot key this store reads from and writes to.
    pub fn name(&self) -> (r: &String)
        ensures
            r@ == self.spec_name(),
    {
        &self.name
    }

    /// Creates a store over the slot key `name`, loading `stored`, the
    /// slot's current value. A missing value means no prior data; a
    /// malformed one is recovered from by starting empty (fail open). In
    /// both cases the store starts with no items.
    pub fn new(name: String, stored: Option<String>) -> (s: Store)
        ensures
            s.spec_name() == name@,
            match stored {
                Some(v) => match parse_items(v@) {
                    Some(items) => s@ == items,
                    None => s@ == Seq::<ItemModel>::empty(),
                },
                None => s@ == Seq::<ItemModel>::empty(),
            },
    {
        let data: Vec<Item> = match stored {
            Some(v) => match codec::decode(v.as_str()) {
                Ok(items) => items,
                Err(_) => Vec::new(),
            },
            None => Vec::new(),
        };
        proof {
            assert(Seq::new(0, |i: int| data@[i].deep_view()) =~= Seq::<ItemModel>::empty());
        }
        Store { name, data }
    }

    /// Encodes the current collection into the value the host must write
    /// to the slot to make this store's state durable.
    pub fn flush_value(&self) -> (r: String)
        ensures
            r@ == serialize_items(self@),
    {
        codec::encode(&self.data)
    }

    /// Finds the items matching `query`, in insertion order.
    pub fn find(&self, query: ItemQuery) -> (r: ItemList)
        ensures
            r.deep_view() == self@.filter(matches_pred(query)),
    {
        let ghost pred = matches_pred(query);
        let mut r: Vec<Item> = Vec::new();
        let n = self.data.len();
        let mut i: usize = 0;
        proof {
            reveal(Seq::filter);
            assert(self.data.deep_view().take(0) =~= Seq::<ItemModel>::empty());
            assert(r.deep_view() =~= Seq::<ItemModel>::empty());
        }
        while i < n
            invariant
                i <= n,
                n == self.data.len(),
                pred == matches_pred(query),
                r.deep_view() == self.data.deep_view().take(i as int).filter(pred),
            decreases n - i,
        {
            let ghost prefix = self.data.deep_view().take(i as int);
            let ghost before = r.deep_view();
            let item = &self.data[i];
            if query.matches(item) {
                r.push(item.clone());
                proof {
                    assert(r.deep_view() =~= before.push(item@));
                }
            }
            proof {
                assert(self.data.deep_view().take(i as int + 1) =~= prefix.push(
                    self.data.deep_view()[i as int],
                ));
                lemma_filter_push(prefix, self.data.deep_view()[i as int], pred);
            }
            i = i + 1;
        }
        proof {
            assert(self.data.deep_view().take(n as int) =~= self.data.deep_view());
        }
        r
    }

    /// Counts the items: the total, the active (not completed) and the
    /// completed, in that order. The active and completed counts always
    /// sum to the total.
    pub fn count(&self) -> (r: (usize, usize, usize))
        ensures
            r.0 == self@.len(),
            r.2 == self@.filter(completed_pred()).len(),
            r.1 == r.0 - r.2,
            r.0 == r.1 + r.2,
    {
        let data = self.find(ItemQuery::EmptyItemQuery);
        proof {
            lemma_filter_all(self@, matches_pred(ItemQuery::EmptyItemQuery));
        }
        let total = data.len();
        let mut completed: usize = 0;
        let mut i: usize = 0;
        proof {
            reveal(Seq::filter);
            assert(data.deep_view().take(0) =~= Seq::<ItemModel>::empty());
        }
        while i < total
            invariant
                i <= total,
                total == data.len(),
                completed <= i,
                completed == data.deep_view().take(i as int).filter(completed_pred()).len(),
            decreases total - i,
        {
            let ghost prefix = data.deep_view().take(i as int);
            if data[i].completed {
                completed = completed + 1;
            }
            proof {
                assert(data.deep_view().take(i as int + 1) =~= prefix.push(
                    data.deep_view()[i as int],
                ));
                lemma_filter_push(prefix, data.deep_view()[i as int], completed_pred());
            }
            i = i + 1;
        }
        proof {
            assert(data.deep_view().take(total as int) =~= data.deep_view());
        }
        (total, total - completed, completed)
    }

    /// Inserts `item` at the end of the collection. The collection grows
    /// by exactly one; every other item is unchanged.
    pub fn insert(&mut self, item: Item)
        ensures
            final(self)@ == old(self)@.push(item@),
            final(self).spec_name() == old(self).spec_name(),
    {
        let ghost before = self.data.deep_view();
        let ghost m = item@;
        self.data.push(item);
        proof {
            assert(self.data.deep_view() =~= before.push(m));
        }
    }

    /// Applies `update` to every item whose id is the one it targets:
    /// fields the update leaves unset are unchanged, ids never change, and
    /// items with a different id are unchanged entirely.
    pub fn update(&mut self, update: ItemUpdate)
        ensures
            final(self)@.len() == old(self)@.len(),
            forall|i: int|
                0 <= i < old(self)@.len() ==> final(self)@[i] == spec_updated(
                    old(self)@[i],
                    update@,
                ),
            final(self).spec_name() == old(self).spec_name(),
    {
        let ghost before = self.data.deep_view();
        let mut out: Vec<Item> = Vec::new();
        let n = self.data.len();
        let mut i: usize = 0;
        while i < n
            invariant
                i <= n,
                n == self.data.len(),
                before == self.data.deep_view(),
                out.len() == i,
                forall|k: int|
                    0 <= k < i ==> out.deep_view()[k] == spec_updated(before[k], update@),
            decreases n - i,
        {
            let ghost so_far = out.deep_view();
            let item = &self.data[i];
            if item.id == update.id {
                out.push(item.apply(&update));
                proof {
                    assert(out.deep_view() =~= so_far.push(apply_update(before[i as int], update@)));
                }
            } else {
                out.push(item.clone());
                proof {
                    assert(out.deep_view() =~= so_far.push(before[i as int]));
                }
            }
            i = i + 1;
        }
        self.data = out;
    }

    /// Removes every item matching `query`, keeping the others in their
    /// original relative order, unchanged.
    pub fn remove(&mut self, query: ItemQuery)
        ensures
            final(self)@ == old(self)@.filter(not_matches_pred(query)),
            final(self).spec_name() == old(self).spec_name(),
    {
        let ghost pred = not_matches_pred(query);
        let ghost before = self.data.deep_view();
        let mut out: Vec<Item> = Vec::new();
        let n = self.data.len();
        let mut i: usize = 0;
        proof {
            reveal(Seq::filter);
            assert(before.take(0) =~= Seq::<ItemModel>::empty());
            assert(out.deep_view() =~= Seq::<ItemModel>::empty());
        }
        while i < n
            invariant
                i <= n,
                n == self.data.len(),
                pred == not_matches_pred(query),
                before == self.data.deep_view(),
                out.deep_view() == before.take(i as int).filter(pred),
            decreases n - i,
        {
            let ghost prefix = before.take(i as int);
            let ghost so_far = out.deep_view();
            let item = &self.data[i];
            if !query.matches(item) {
                out.push(item.clone());
                proof {
                    assert(out.deep_view() =~= so_far.push(item@));
                }
            }
            proof {
                assert(before.take(i as int + 1) =~= prefix.push(before[i as int]));
                lemma_filter_push(prefix, before[i as int], pred);
            }
            i = i + 1;
        }
        proof {
            assert(before.take(n as int) =~= before);
        }
        self.data = out;
    }
}

/// Inserting an item grows the collection by exactly one, the items before
/// it are unchanged, and the new item is the last element a find with the
/// empty query then returns.
pub proof fn lemma_insert_monotonic(before: Seq<ItemModel>, item: ItemModel)
    ensures
        before.push(item).len() == before.len() + 1,
        before.push(item).filter(matches_pred(ItemQuery::EmptyItemQuery)) == before.push(item),
        before.push(item)[before.len() as int] == item,
        forall|i: int| 0 <= i < before.len() ==> before.push(item)[i] == before[i],
{
    lemma_filter_all(before.push(item), matches_pred(ItemQuery::EmptyItemQuery));
}

/// After a removal by `query`, a find with the same query returns nothing:
/// no kept item matches it.
pub proof fn lemma_remove_complete(items: Seq<ItemModel>, query: ItemQuery)
    ensures
        items.filter(not_matches_pred(query)).filter(matches_pred(query)) == Seq::<
            ItemModel,
        >::empty(),
        forall|i: int|
            0 <= i < items.filter(not_matches_pred(query)).len() ==> !query.spec_matches(
                #[trigger] items.filter(not_matches_pred(query))[i],
            ),
{
    let kept = items.filter(not_matches_pred(query));
    assert forall|i: int| 0 <= i < kept.len() implies !query.spec_matches(kept[i]) by {
        items.lemma_filter_pred(not_matches_pred(query), i);
    }
    lemma_filter_none(kept, matches_pred(query));
}

/// An update touches exactly the items whose id it targets: a targeted
/// item gets the update's field values with its id unchanged, and every
/// other item is unchanged entirely.
pub proof fn lemma_update_targeting(before: Seq<ItemModel>, u: UpdateModel, after: Seq<ItemModel>)
    requires
        after.len() == before.len(),
        forall|i: int| 0 <= i < before.len() ==> after[i] == spec_updated(#[trigger] before[i], u),
    ensures
        forall|i: int|
            0 <= i < before.len() && (#[trigger] before[i]).id == u.id ==> after[i].id
                == before[i].id && after[i] == apply_update(before[i], u),
        forall|i: int|
            0 <= i < before.len() && (#[trigger] before[i]).id != u.id ==> after[i] == before[i],
{
}

} // verus!
