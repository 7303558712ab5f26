//! The item store: the items seen so far, kept ordered by id so that they can
//! be found again by binary search.

use vstd::prelude::*;
use crate::model::Item;

verus! {

/// The ids of `s` strictly increase: `s` is ordered by id and holds no id twice.
pub open spec fn ids_increasing(s: Seq<Item>) -> bool {
    forall|i: int, j: int| 0 <= i < j < s.len() ==> s[i].id < s[j].id
}

/// Some item of `s` has the id `id`.
pub open spec fn has_id(s: Seq<Item>, id: u128) -> bool {
    exists|i: int| 0 <= i < s.len() && s[i].id == id
}

/// The index of an item of `s` with the id `id` (meaningful when `has_id(s, id)`).
pub open spec fn position(s: Seq<Item>, id: u128) -> int {
    choose|i: int| 0 <= i < s.len() && s[i].id == id
}

/// The item of `s` with the id `id`, if there is one.
pub open spec fn lookup(s: Seq<Item>, id: u128) -> Option<Item> {
    if has_id(s, id) {
        Some(s[position(s, id)])
    } else {
        None
    }
}

/// The number of items of `s` whose id is below `id`: where an item with that
/// id goes in an ordered sequence.
pub open spec fn rank(s: Seq<Item>, id: u128) -> nat
    decreases s.len(),
{
    if s.len() == 0 {
        0
    } else {
        rank(s.drop_last(), id) + if s.last().id < id {
            1nat
        } else {
            0nat
        }
    }
}

/// In a sequence with increasing ids, an index that holds the id is its position.
pub proof fn lemma_position_unique(s: Seq<Item>, id: u128, i: int)
    requires
        ids_increasing(s),
        0 <= i < s.len(),
        s[i].id == id,
    ensures
        has_id(s, id),
        position(s, id) == i,
        lookup(s, id) == Some(s[i]),
{
    let j = position(s, id);
    if j < i {
        assert(s[j].id < s[i].id);
    } else if i < j {
        assert(s[i].id < s[j].id);
    }
}

/// The split of an ordered sequence at `k`, with smaller ids before and larger
/// ones from `k` on, is the rank of `id`.
pub proof fn lemma_rank_at_split(s: Seq<Item>, id: u128, k: int)
    requires
        0 <= k <= s.len(),
        forall|i: int| 0 <= i < k ==> s[i].id < id,
        forall|i: int| k <= i < s.len() ==> s[i].id >= id,
    ensures
        rank(s, id) == k,
    decreases s.len(),
{
    if s.len() > 0 {
        let t = s.drop_last();
        if k == s.len() {
            assert(s.last().id < id);
            lemma_rank_at_split(t, id, k - 1);
        } else {
            assert(s.last().id >= id);
            lemma_rank_at_split(t, id, k);
        }
    }
}

/// Inserting an item whose id is absent at its rank keeps the ids increasing,
/// makes the item found under its id, and leaves every other id as it was.
pub proof fn lemma_insert_at_rank(s: Seq<Item>, item: Item, k: int)
    requires
        ids_increasing(s),
        0 <= k <= s.len(),
        forall|i: int| 0 <= i < k ==> s[i].id < item.id,
        forall|i: int| k <= i < s.len() ==> s[i].id > item.id,
    ensures
        ids_increasing(s.insert(k, item)),
        lookup(s.insert(k, item), item.id) == Some(item),
        forall|other: u128| other != item.id ==> lookup(s.insert(k, item), other) == lookup(s, other),
{
    let t = s.insert(k, item);
    assert forall|i: int, j: int| 0 <= i < j < t.len() implies t[i].id < t[j].id by {
        if j < k {
        } else if j == k {
        } else if i < k {
        } else if i == k {
        } else {
            assert(t[i] == s[i - 1] && t[j] == s[j - 1]);
        }
    }
    lemma_position_unique(t, item.id, k);
    assert forall|other: u128| other != item.id implies lookup(t, other) == lookup(s, other) by {
        if has_id(s, other) {
            let p = position(s, other);
            if p < k {
                assert(t[p] == s[p]);
                lemma_position_unique(t, other, p);
            } else {
                assert(t[p + 1] == s[p]);
                lemma_position_unique(t, other, p + 1);
            }
        } else if has_id(t, other) {
            let q = position(t, other);
            if q < k {
                assert(s[q] == t[q]);
            } else {
                assert(s[q - 1] == t[q]);
            }
        }
    }
}

/// Replacing the item at `i` by one with the same id keeps the ids increasing,
/// makes the new item found under that id, and leaves every other id as it was.
pub proof fn lemma_update_same_id(s: Seq<Item>, i: int, item: Item)
    requires
        ids_increasing(s),
        0 <= i < s.len(),
        s[i].id == item.id,
    ensures
        ids_increasing(s.update(i, item)),
        lookup(s.update(i, item), item.id) == Some(item),
        forall|other: u128| other != item.id ==> lookup(s.update(i, item), other) == lookup(s, other),
{
    let t = s.update(i, item);
    assert forall|a: int, b: int| 0 <= a < b < t.len() implies t[a].id < t[b].id by {
        assert(s[a].id < s[b].id);
    }
    lemma_position_unique(t, item.id, i);
    assert forall|other: u128| other != item.id implies lookup(t, other) == lookup(s, other) by {
        if has_id(s, other) {
            let p = position(s, other);
            assert(t[p] == s[p]);
            lemma_position_unique(t, other, p);
        } else if has_id(t, other) {
            let q = position(t, other);
            assert(s[q] == t[q]);
        }
    }
}

/// In a sequence with increasing ids, the rank of an id splits it: the ids
/// before the rank are smaller, those from it on are not.
pub proof fn lemma_rank_splits(s: Seq<Item>, id: u128)
    requires
        ids_increasing(s),
    ensures
        rank(s, id) <= s.len(),
        forall|i: int| 0 <= i < rank(s, id) ==> s[i].id < id,
        forall|i: int| rank(s, id) <= i < s.len() ==> s[i].id >= id,
    decreases s.len(),
{
    if s.len() > 0 {
        let t = s.drop_last();
        assert(ids_increasing(t));
        lemma_rank_splits(t, id);
        assert forall|i: int| 0 <= i < t.len() implies t[i] == s[i] by {}
        if s.last().id < id {
            if rank(t, id) < t.len() {
                assert(s[rank(t, id) as int].id < s[s.len() - 1].id);
            }
            assert(rank(s, id) == s.len());
            assert forall|i: int| 0 <= i < rank(s, id) implies s[i].id < id by {
                if i < s.len() - 1 {
                    assert(s[i].id < s[s.len() - 1].id);
                }
            }
        } else {
            assert(rank(s, id) == rank(t, id));
        }
    }
}

/// Appending an item whose id is not in the store puts it where a later lookup
/// of its id finds it, keeps the store ordered, and leaves the other ids as they were.
pub proof fn law_append_then_find(s: Seq<Item>, item: Item)
    requires
        ids_increasing(s),
        !has_id(s, item.id),
    ensures
        ids_increasing(s.insert(rank(s, item.id) as int, item)),
        lookup(s.insert(rank(s, item.id) as int, item), item.id) == Some(item),
        forall|other: u128|
            other != item.id ==> lookup(s.insert(rank(s, item.id) as int, item), other) == lookup(s, other),
{
    lemma_rank_splits(s, item.id);
    let k = rank(s, item.id) as int;
    assert forall|i: int| k <= i < s.len() implies s[i].id > item.id by {
        if s[i].id == item.id {
            assert(has_id(s, item.id));
        }
    }
    lemma_insert_at_rank(s, item, k);
}

/// The store's items after appending `item`: as they were when its id is there,
/// otherwise with the item inserted in its place by id.
pub open spec fn appended(s: Seq<Item>, item: Item) -> Seq<Item> {
    if has_id(s, item.id) {
        s
    } else {
        s.insert(rank(s, item.id) as int, item)
    }
}

/// What appending does to lookups: the item's id finds the item unless the id
/// was there already, and every other id finds what it found before.
proof fn lemma_appended_lookup(s: Seq<Item>, item: Item)
    requires
        ids_increasing(s),
    ensures
        ids_increasing(appended(s, item)),
        lookup(appended(s, item), item.id) == if has_id(s, item.id) {
            lookup(s, item.id)
        } else {
            Some(item)
        },
        forall|other: u128| other != item.id ==> lookup(appended(s, item), other) == lookup(s, other),
{
    if !has_id(s, item.id) {
        law_append_then_find(s, item);
    }
}

/// Dropping the last item of an ordered sequence loses exactly its id.
proof fn lemma_lookup_drop_last(s: Seq<Item>, id: u128)
    requires
        ids_increasing(s),
        s.len() > 0,
    ensures
        id == s.last().id ==> lookup(s.drop_last(), id) is None,
        id != s.last().id ==> lookup(s.drop_last(), id) == lookup(s, id),
{
    let t = s.drop_last();
    if has_id(t, id) {
        let q = position(t, id);
        assert(t[q] == s[q]);
        assert(s[q].id < s[s.len() - 1].id);
        lemma_position_unique(s, id, q);
        lemma_position_unique(t, id, q);
    } else if has_id(s, id) && id != s.last().id {
        let p = position(s, id);
        if p < s.len() - 1 {
            assert(t[p] == s[p]);
        }
    }
}

/// Two ordered sequences in which every id finds the same item are the same.
proof fn lemma_same_lookups_same_items(x: Seq<Item>, y: Seq<Item>)
    requires
        ids_increasing(x),
        ids_increasing(y),
        forall|id: u128| lookup(x, id) == lookup(y, id),
    ensures
        x == y,
    decreases x.len(),
{
    if x.len() == 0 {
        if y.len() > 0 {
            lemma_position_unique(y, y[0].id, 0);
            assert(lookup(x, y[0].id) is None);
        }
        assert(y =~= x);
    } else {
        let m = x.last().id;
        lemma_position_unique(x, m, x.len() - 1);
        assert(lookup(y, m) == Some(x.last()));
        let p = position(y, m);
        assert(y.len() > 0);
        let n = y.last().id;
        lemma_position_unique(y, n, y.len() - 1);
        assert(lookup(x, n) == Some(y.last()));
        let q = position(x, n);
        if n < m {
            if p < y.len() - 1 {
                assert(y[p].id < y[y.len() - 1].id);
            }
        } else if m < n {
            if q < x.len() - 1 {
                assert(x[q].id < x[x.len() - 1].id);
            }
        }
        assert(m == n);
        assert(y.last() == x.last());
        let xs = x.drop_last();
        let ys = y.drop_last();
        assert forall|id: u128| lookup(xs, id) == lookup(ys, id) by {
            lemma_lookup_drop_last(x, id);
            lemma_lookup_drop_last(y, id);
        }
        assert(ids_increasing(xs));
        assert(ids_increasing(ys));
        lemma_same_lookups_same_items(xs, ys);
        assert(x =~= xs.push(x.last()));
        assert(y =~= ys.push(y.last()));
    }
}

/// Appending two items with different ids gives the same store in either order.
pub proof fn law_appends_commute(s: Seq<Item>, a: Item, b: Item)
    requires
        ids_increasing(s),
        a.id != b.id,
    ensures
        appended(appended(s, a), b) == appended(appended(s, b), a),
{
    let sa = appended(s, a);
    let sb = appended(s, b);
    lemma_appended_lookup(s, a);
    lemma_appended_lookup(s, b);
    lemma_appended_lookup(sa, b);
    lemma_appended_lookup(sb, a);
    let x = appended(sa, b);
    let y = appended(sb, a);
    assert(has_id(sa, b.id) == has_id(s, b.id)) by {
        assert(lookup(sa, b.id) == lookup(s, b.id));
        if has_id(sa, b.id) {
            lemma_position_unique(sa, b.id, position(sa, b.id));
        }
        if has_id(s, b.id) {
            lemma_position_unique(s, b.id, position(s, b.id));
        }
    }
    assert(has_id(sb, a.id) == has_id(s, a.id)) by {
        assert(lookup(sb, a.id) == lookup(s, a.id));
        if has_id(sb, a.id) {
            lemma_position_unique(sb, a.id, position(sb, a.id));
        }
        if has_id(s, a.id) {
            lemma_position_unique(s, a.id, position(s, a.id));
        }
    }
    assert forall|id: u128| lookup(x, id) == lookup(y, id) by {
        if id == a.id {
            assert(lookup(x, id) == lookup(sa, id));
        } else if id == b.id {
            assert(lookup(y, id) == lookup(sb, id));
        } else {
            assert(lookup(x, id) == lookup(s, id));
            assert(lookup(y, id) == lookup(s, id));
        }
    }
    lemma_same_lookups_same_items(x, y);
}

/// Replacing the item of an id that is in the store makes a later lookup of that
/// id find the new item, keeps the store ordered, and leaves the other ids as they were.
pub proof fn law_replace_then_find(s: Seq<Item>, item: Item)
    requires
        ids_increasing(s),
        has_id(s, item.id),
    ensures
        ids_increasing(s.update(position(s, item.id), item)),
        lookup(s.update(position(s, item.id), item), item.id) == Some(item),
        forall|other: u128|
            other != item.id ==> lookup(s.update(position(s, item.id), item), other) == lookup(s, other),
{
    lemma_update_same_id(s, position(s, item.id), item);
}

/// Replacing an item and then replacing it back with the item that the first
/// replacement returned gives the store back as it was.
pub proof fn law_replace_undone(s: Seq<Item>, item: Item)
    requires
        ids_increasing(s),
        has_id(s, item.id),
    ensures
        ({
            let p = position(s, item.id);
            let t = s.update(p, item);
            let previous = lookup(s, item.id)->0;
            &&& previous.id == item.id
            &&& position(t, item.id) == p
            &&& t.update(position(t, item.id), previous) == s
        }),
{
    let p = position(s, item.id);
    let t = s.update(p, item);
    lemma_update_same_id(s, p, item);
    lemma_position_unique(t, item.id, p);
    assert(t.update(p, s[p]) =~= s);
}

/// A cleared store finds no id.
pub proof fn law_cleared_store_finds_nothing(id: u128)
    ensures
        lookup(Seq::<Item>::empty(), id) is None,
{
}

/// Item store to track item states.
///
/// Internally, the store is simply a list of items ordered by id.
#[derive(Debug, Clone)]
pub struct ItemStore {
    items: Vec<Item>,
}

impl View for ItemStore {
    type V = Seq<Item>;

    closed spec fn view(&self) -> Seq<Item> {
        self.items@
    }
}

impl Default for ItemStore {
    /// An empty store.
    fn default() -> (store: Self)
        ensures
            store@ == Seq::<Item>::empty(),
    {
        ItemStore { items: Vec::new() }
    }
}

impl ItemStore {
    /// The store's items are ordered by id, each id at most once.
    pub open spec fn well_formed(&self) -> bool {
        ids_increasing(self@)
    }

    /// Create a new, empty ItemStore
    pub fn new() -> (store: Self)
        ensures
            store@ == Seq::<Item>::empty(),
            store.well_formed(),
    {
        ItemStore { items: Vec::new() }
    }

    /// Get a reference to the internal list of items
    pub fn items(&self) -> (r: &Vec<Item>)
        ensures
            r@ == self@,
    {
        &self.items
    }

    /// Clear the item store
    pub fn clear(&mut self)
        ensures
            final(self)@ == Seq::<Item>::empty(),
            final(self).well_formed(),
    {
        self.items.clear();
    }

    /// Binary search by id: `Ok` with the index of the item that has `id`, or
    /// `Err` with the index where an item with `id` would be inserted.
    fn locate(&self, id: u128) -> (r: Result<usize, usize>)
        requires
            self.well_formed(),
        ensures
            match r {
                Ok(i) => i < self@.len() && self@[i as int].id == id,
                Err(k) => {
                    &&& k <= self@.len()
                    &&& forall|i: int| 0 <= i < k ==> self@[i].id < id
                    &&& forall|i: int| k <= i < self@.len() ==> self@[i].id > id
                },
            },
    {
        let mut lo: usize = 0;
        let mut hi: usize = self.items.len();
        while lo < hi
            invariant
                0 <= lo <= hi <= self@.len(),
                self@ == self.items@,
                ids_increasing(self@),
                forall|i: int| 0 <= i < lo ==> self@[i].id < id,
                forall|i: int| hi <= i < self@.len() ==> self@[i].id > id,
            decreases hi - lo,
        {
            let mid: usize = lo + (hi - lo) / 2;
            let mid_id: u128 = self.items[mid].id;
            if mid_id < id {
                lo = mid + 1;
            } else if mid_id > id {
                hi = mid;
            } else {
                return Ok(mid);
            }
        }
        Err(lo)
    }

    /// Append an item to the store, in its place by id; an item whose id is
    /// already there is not inserted.
    pub fn append(&mut self, item: Item) -> (inserted: bool)
        requires
            old(self).well_formed(),
        ensures
            final(self).well_formed(),
            inserted == !has_id(old(self)@, item.id),
            final(self)@ == appended(old(self)@, item),
    {
        match self.locate(item.id) {
            Ok(index) => {
                proof {
                    lemma_position_unique(self@, item.id, index as int);
                }
                false
            },
            Err(index) => {
                proof {
                    lemma_rank_at_split(self@, item.id, index as int);
                    lemma_insert_at_rank(self@, item, index as int);
                }
                self.items.insert(index, item);
                true
            },
        }
    }

    /// Find an item by its ID
    pub fn find(&self, item_id: u128) -> (r: Option<&Item>)
        requires
            self.well_formed(),
        ensures
            match r {
                Some(item) => lookup(self@, item_id) == Some(*item),
                None => lookup(self@, item_id) is None,
            },
    {
        match self.locate(item_id) {
            Ok(index) => {
                proof {
                    lemma_position_unique(self@, item_id, index as int);
                }
                Some(&self.items[index])
            },
            Err(_) => None,
        }
    }

    /// Find a mutable reference to an item by its ID. What is written through it
    /// lands at that item's place in the store.
    pub fn find_mut(&mut self, item_id: u128) -> (r: Option<&mut Item>)
        requires
            old(self).well_formed(),
        ensures
            match r {
                Some(item) => {
                    &&& lookup(old(self)@, item_id) == Some(*item)
                    &&& final(self)@ == old(self)@.update(position(old(self)@, item_id), *final(item))
                },
                None => {
                    &&& lookup(old(self)@, item_id) is None
                    &&& final(self)@ == old(self)@
                },
            },
    {
        match self.locate(item_id) {
            Ok(index) => {
                proof {
                    lemma_position_unique(self@, item_id, index as int);
                }
                Some(&mut self.items[index])
            },
            Err(_) => None,
        }
    }

    /// Replace an item in the store by its ID, giving back the item it replaced
    pub fn replace(&mut self, new_item: Item) -> (r: Result<Item, ()>)
        requires
            old(self).well_formed(),
        ensures
            final(self).well_formed(),
            match r {
                Ok(old_item) => {
                    &&& lookup(old(self)@, new_item.id) == Some(old_item)
                    &&& final(self)@ == old(self)@.update(position(old(self)@, new_item.id), new_item)
                },
                Err(()) => {
                    &&& lookup(old(self)@, new_item.id) is None
                    &&& final(self)@ == old(self)@
                },
            },
    {
        match self.locate(new_item.id) {
            Ok(index) => {
                proof {
                    lemma_position_unique(self@, new_item.id, index as int);
                    lemma_update_same_id(self@, index as int, new_item);
                }
                let old_item = self.items[index].clone();
                self.items.set(index, new_item);
                Ok(old_item)
            },
            Err(_) => Err(()),
        }
    }
}

} // verus!
