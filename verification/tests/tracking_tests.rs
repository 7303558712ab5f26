use openbar_notifier::event::ItemEvent;
use openbar_notifier::model::{Item, ItemState};
use openbar_notifier::store::ItemStore;
use openbar_notifier::tracking::track_item;

fn item(id: u128, state: ItemState, amount_left: i64) -> Item {
    Item { id, name: format!("item {}", id), state, amount_left }
}

#[test]
fn first_observation_adds_the_item() {
    let mut store = ItemStore::new();
    let mut events = Vec::new();
    track_item(&mut store, item(4, ItemState::ItemBuyable, 3), &mut events);
    assert_eq!(events, vec![(4, ItemEvent::Added)]);
    assert_eq!(store.find(4).unwrap().amount_left, 3);
}

#[test]
fn state_change_raises_the_new_state() {
    let mut store = ItemStore::new();
    let mut events = Vec::new();
    track_item(&mut store, item(1, ItemState::ItemNotBuyable, 3), &mut events);
    track_item(&mut store, item(1, ItemState::ItemBuyable, 3), &mut events);
    track_item(&mut store, item(1, ItemState::ItemNotBuyable, 3), &mut events);
    assert_eq!(
        events,
        vec![(1, ItemEvent::Added), (1, ItemEvent::BecomeBuyable), (1, ItemEvent::BecomeUnbuyable)]
    );
    assert_eq!(store.find(1).unwrap().state, ItemState::ItemNotBuyable);
}

#[test]
fn stock_falling_to_zero_is_out_of_stock_after_the_state_change() {
    let mut store = ItemStore::new();
    let mut events = Vec::new();
    track_item(&mut store, item(9, ItemState::ItemBuyable, 2), &mut events);
    track_item(&mut store, item(9, ItemState::ItemNotBuyable, 0), &mut events);
    assert_eq!(
        events,
        vec![(9, ItemEvent::Added), (9, ItemEvent::BecomeUnbuyable), (9, ItemEvent::OutOfStock)]
    );
    assert_eq!(store.find(9).unwrap().amount_left, 0);
}

#[test]
fn stock_that_was_not_positive_is_no_out_of_stock() {
    let mut store = ItemStore::new();
    let mut events = Vec::new();
    track_item(&mut store, item(2, ItemState::ItemBuyable, 0), &mut events);
    track_item(&mut store, item(2, ItemState::ItemBuyable, 0), &mut events);
    track_item(&mut store, item(3, ItemState::ItemBuyable, -1), &mut events);
    track_item(&mut store, item(3, ItemState::ItemBuyable, 0), &mut events);
    assert_eq!(events, vec![(2, ItemEvent::Added), (3, ItemEvent::Added)]);
}

#[test]
fn observing_the_same_item_twice_raises_nothing_the_second_time() {
    let mut store = ItemStore::new();
    let mut events = Vec::new();
    track_item(&mut store, item(6, ItemState::ItemBuyable, 5), &mut events);
    events.clear();
    track_item(&mut store, item(6, ItemState::ItemBuyable, 5), &mut events);
    assert!(events.is_empty());
    assert_eq!(store.items().len(), 1);
}

#[test]
fn tracking_updates_the_stored_item_and_keeps_order() {
    let mut store = ItemStore::new();
    let mut events = Vec::new();
    for id in [30u128, 10, 20] {
        track_item(&mut store, item(id, ItemState::ItemBuyable, 1), &mut events);
    }
    let mut renamed = item(10, ItemState::ItemBuyable, 4);
    renamed.name = "renamed".to_string();
    track_item(&mut store, renamed, &mut events);
    let ids: Vec<u128> = store.items().iter().map(|i| i.id).collect();
    assert_eq!(ids, vec![10, 20, 30]);
    assert_eq!(store.find(10).unwrap().name, "renamed");
    assert_eq!(store.find(10).unwrap().amount_left, 4);
    assert_eq!(events.len(), 3);
}
