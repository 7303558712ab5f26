//! What a new observation of an item means: the events it raises against the
//! store's record of that item, and the store updated to the observation.

use vstd::prelude::*;
use crate::event::ItemEvent;
use crate::model::{Item, ItemState};
use crate::store::{
    has_id, ids_increasing, law_append_then_find, law_replace_then_find, lemma_position_unique,
    lemma_update_same_id, lookup, position, rank, ItemStore,
};

verus! {

/// The event of an item whose state changed to `state`.
pub open spec fn state_event(state: ItemState) -> ItemEvent {
    match state {
        ItemState::ItemBuyable => ItemEvent::BecomeBuyable,
        ItemState::ItemNotBuyable => ItemEvent::BecomeUnbuyable,
    }
}

/// The events raised by observing `item` when the store's record of its id is
/// `previous`: a new item is added; a known one raises a state change when its
/// state differs, then running out of stock when its stock fell from positive to zero.
pub open spec fn item_events(previous: Option<Item>, item: Item) -> Seq<ItemEvent> {
    match previous {
        None => seq![ItemEvent::Added],
        Some(prev) => {
            (if prev.state != item.state {
                seq![state_event(item.state)]
            } else {
                Seq::<ItemEvent>::empty()
            }) + (if prev.amount_left > 0 && item.amount_left == 0 {
                seq![ItemEvent::OutOfStock]
            } else {
                Seq::<ItemEvent>::empty()
            })
        },
    }
}

/// Each event of `events` paired with the id of the item it is about.
pub open spec fn tagged(id: u128, events: Seq<ItemEvent>) -> Seq<(u128, ItemEvent)> {
    events.map_values(|e: ItemEvent| (id, e))
}

/// The store's items after recording `item`: the record of its id replaced in
/// place, or the item inserted in its place by id.
pub open spec fn recorded(s: Seq<Item>, item: Item) -> Seq<Item> {
    if has_id(s, item.id) {
        s.update(position(s, item.id), item)
    } else {
        s.insert(rank(s, item.id) as int, item)
    }
}

/// Records an observation of `item` in `store` and appends the events it raises,
/// each paired with the item's id, to `events`.
pub fn track_item(store: &mut ItemStore, item: Item, events: &mut Vec<(u128, ItemEvent)>)
    requires
        old(store).well_formed(),
    ensures
        final(store).well_formed(),
        final(store)@ == recorded(old(store)@, item),
        final(events)@ == old(events)@ + tagged(item.id, item_events(lookup(old(store)@, item.id), item)),
{
    let ghost before = store@;
    let ghost prior = lookup(before, item.id);
    let id = item.id;
    match store.find_mut(id) {
        Some(existing) => {
            let ghost start = events@;
            // Compare states to determine events
            if existing.state != item.state {
                match item.state {
                    ItemState::ItemBuyable => events.push((id, ItemEvent::BecomeBuyable)),
                    ItemState::ItemNotBuyable => events.push((id, ItemEvent::BecomeUnbuyable)),
                }
            }
            if existing.amount_left > 0 && item.amount_left == 0 {
                events.push((id, ItemEvent::OutOfStock));
            }
            // Update existing item
            *existing = item.clone();
            proof {
                assert(events@ =~= start + tagged(id, item_events(prior, item)));
            }
        },
        None => {
            // New item, add to store
            store.append(item.clone());
            events.push((id, ItemEvent::Added));
            proof {
                assert(tagged(id, item_events(prior, item)) =~= seq![(id, ItemEvent::Added)]);
            }
        },
    }
    proof {
        if has_id(before, id) {
            lemma_position_unique(before, id, position(before, id));
            lemma_update_same_id(before, position(before, id), item);
        }
    }
}

/// Recording an observation makes a later lookup of the item's id find exactly
/// the observed item, keeps the store ordered, and leaves the other ids as they were.
pub proof fn law_track_then_find(s: Seq<Item>, item: Item)
    requires
        ids_increasing(s),
    ensures
        ids_increasing(recorded(s, item)),
        lookup(recorded(s, item), item.id) == Some(item),
        forall|other: u128| other != item.id ==> lookup(recorded(s, item), other) == lookup(s, other),
{
    if has_id(s, item.id) {
        law_replace_then_find(s, item);
    } else {
        law_append_then_find(s, item);
    }
}

/// Observing the same item again raises no event and leaves the store as the
/// first observation left it.
pub proof fn law_track_twice_quiet(s: Seq<Item>, item: Item)
    requires
        ids_increasing(s),
    ensures
        item_events(lookup(recorded(s, item), item.id), item) == Seq::<ItemEvent>::empty(),
        recorded(recorded(s, item), item) == recorded(s, item),
{
    law_track_then_find(s, item);
    let t = recorded(s, item);
    let p = position(t, item.id);
    assert(t[p] == item);
    assert(t.update(p, item) =~= t);
    assert(item_events(Some(item), item) =~= Seq::<ItemEvent>::empty());
}

/// The first observation of an item raises exactly one event, `Added`; a later
/// one never raises `Added`.
pub proof fn law_added_once(s: Seq<Item>, item: Item)
    ensures
        !has_id(s, item.id) ==> item_events(lookup(s, item.id), item) == seq![ItemEvent::Added],
        has_id(s, item.id) ==> !item_events(lookup(s, item.id), item).contains(ItemEvent::Added),
{
    if has_id(s, item.id) {
        let e = item_events(lookup(s, item.id), item);
        if e.contains(ItemEvent::Added) {
            let i = choose|i: int| 0 <= i < e.len() && e[i] == ItemEvent::Added;
            let prev = lookup(s, item.id)->0;
            if prev.state != item.state {
                assert(e[0] != ItemEvent::Added);
            }
        }
    }
}

/// The events of a known item, event by event: it becomes buyable exactly when
/// it was not buyable and now is, unbuyable exactly when it was buyable and now
/// is not, out of stock exactly when its stock fell from positive to zero
/// (whatever its state), and it is never added again. A state change comes
/// before running out of stock, and nothing is raised twice.
pub proof fn law_known_item_events(prev: Item, item: Item)
    ensures
        item_events(Some(prev), item).contains(ItemEvent::OutOfStock) <==> (prev.amount_left > 0 && item.amount_left == 0),
        item_events(Some(prev), item).contains(ItemEvent::BecomeBuyable) <==> (prev.state == ItemState::ItemNotBuyable && item.state == ItemState::ItemBuyable),
        item_events(Some(prev), item).contains(ItemEvent::BecomeUnbuyable) <==> (prev.state == ItemState::ItemBuyable && item.state == ItemState::ItemNotBuyable),
        !item_events(Some(prev), item).contains(ItemEvent::Added),
        item_events(Some(prev), item).no_duplicates(),
        item_events(Some(prev), item).len() == (if prev.state != item.state { 1int } else { 0int }) + (if prev.amount_left > 0 && item.amount_left == 0 { 1int } else { 0int }),
        prev.state == item.state ==> item_events(Some(prev), item) == (if prev.amount_left > 0 && item.amount_left == 0 {
            seq![ItemEvent::OutOfStock]
        } else {
            Seq::<ItemEvent>::empty()
        }),
{
    let e = item_events(Some(prev), item);
    let changed = prev.state != item.state;
    let sold_out = prev.amount_left > 0 && item.amount_left == 0;
    let se = state_event(item.state);
    if changed && sold_out {
        assert(e =~= seq![se, ItemEvent::OutOfStock]);
        assert(e[0] == se && e[1] == ItemEvent::OutOfStock);
    } else if changed {
        assert(e =~= seq![se]);
        assert(e[0] == se);
    } else if sold_out {
        assert(e =~= seq![ItemEvent::OutOfStock]);
        assert(e[0] == ItemEvent::OutOfStock);
    } else {
        assert(e =~= Seq::<ItemEvent>::empty());
    }
}

} // verus!
