use openbar_notifier::model::{Item, ItemState};
use openbar_notifier::store::ItemStore;

fn item(id: u128, name: &str, state: ItemState, amount_left: i64) -> Item {
    Item { id, name: name.to_string(), state, amount_left }
}

fn ids(store: &ItemStore) -> Vec<u128> {
    store.items().iter().map(|i| i.id).collect()
}

#[test]
fn new_store_is_empty() {
    let store = ItemStore::new();
    assert!(store.items().is_empty());
}

#[test]
fn append_keeps_items_ordered_by_id() {
    let mut store = ItemStore::new();
    assert!(store.append(item(5, "five", ItemState::ItemBuyable, 1)));
    assert!(store.append(item(1, "one", ItemState::ItemBuyable, 1)));
    assert!(store.append(item(3, "three", ItemState::ItemNotBuyable, 0)));
    assert!(store.append(item(u128::MAX, "max", ItemState::ItemBuyable, 2)));
    assert!(store.append(item(0, "zero", ItemState::ItemBuyable, 2)));
    assert_eq!(ids(&store), vec![0, 1, 3, 5, u128::MAX]);
}

#[test]
fn append_of_known_id_is_refused() {
    let mut store = ItemStore::new();
    assert!(store.append(item(3, "first", ItemState::ItemBuyable, 1)));
    assert!(!store.append(item(3, "second", ItemState::ItemNotBuyable, 9)));
    assert_eq!(store.items().len(), 1);
    assert_eq!(store.find(3).unwrap().name, "first");
    assert_eq!(store.find(3).unwrap().amount_left, 1);
}

#[test]
fn append_then_find_gives_the_item() {
    let mut store = ItemStore::new();
    for id in [10u128, 2, 7, 4] {
        store.append(item(id, "x", ItemState::ItemBuyable, id as i64));
    }
    let found = store.find(7).unwrap();
    assert_eq!(found.id, 7);
    assert_eq!(found.amount_left, 7);
    assert!(store.find(5).is_none());
    assert!(store.find(11).is_none());
}

#[test]
fn find_mut_writes_into_the_store() {
    let mut store = ItemStore::new();
    store.append(item(1, "a", ItemState::ItemBuyable, 4));
    store.append(item(2, "b", ItemState::ItemBuyable, 4));
    {
        let it = store.find_mut(2).unwrap();
        it.amount_left = 0;
        it.state = ItemState::ItemNotBuyable;
    }
    assert_eq!(store.find(2).unwrap().amount_left, 0);
    assert_eq!(store.find(2).unwrap().state, ItemState::ItemNotBuyable);
    assert_eq!(store.find(1).unwrap().amount_left, 4);
    assert!(store.find_mut(3).is_none());
}

#[test]
fn replace_returns_the_previous_item() {
    let mut store = ItemStore::new();
    store.append(item(8, "old", ItemState::ItemBuyable, 2));
    let previous = store.replace(item(8, "new", ItemState::ItemNotBuyable, 0)).unwrap();
    assert_eq!(previous.name, "old");
    assert_eq!(previous.amount_left, 2);
    assert_eq!(store.find(8).unwrap().name, "new");
    assert_eq!(store.items().len(), 1);
}

#[test]
fn replace_of_unknown_id_fails_and_changes_nothing() {
    let mut store = ItemStore::new();
    store.append(item(8, "old", ItemState::ItemBuyable, 2));
    assert_eq!(store.replace(item(9, "other", ItemState::ItemBuyable, 1)).unwrap_err(), ());
    assert_eq!(ids(&store), vec![8]);
    assert!(store.find(9).is_none());
}

#[test]
fn replace_back_undoes_a_replace() {
    let mut store = ItemStore::new();
    store.append(item(1, "a", ItemState::ItemBuyable, 2));
    store.append(item(2, "b", ItemState::ItemBuyable, 3));
    let previous = store.replace(item(2, "c", ItemState::ItemNotBuyable, 0)).unwrap();
    let undone = store.replace(previous).unwrap();
    assert_eq!(undone.name, "c");
    let restored = store.find(2).unwrap();
    assert_eq!(restored.name, "b");
    assert_eq!(restored.amount_left, 3);
    assert_eq!(restored.state, ItemState::ItemBuyable);
}

#[test]
fn clear_empties_the_store() {
    let mut store = ItemStore::new();
    store.append(item(1, "a", ItemState::ItemBuyable, 2));
    store.clear();
    assert!(store.items().is_empty());
    assert!(store.find(1).is_none());
    assert!(store.append(item(1, "a", ItemState::ItemBuyable, 2)));
}

#[test]
fn appends_of_different_ids_commute() {
    let mut s = ItemStore::new();
    s.append(item(4, "four", ItemState::ItemBuyable, 1));
    s.append(item(9, "nine", ItemState::ItemBuyable, 1));
    let mut t = s.clone();
    s.append(item(6, "six", ItemState::ItemBuyable, 2));
    s.append(item(1, "one", ItemState::ItemNotBuyable, 0));
    t.append(item(1, "one", ItemState::ItemNotBuyable, 0));
    t.append(item(6, "six", ItemState::ItemBuyable, 2));
    let view = |st: &ItemStore| -> Vec<(u128, String, i64)> {
        st.items().iter().map(|i| (i.id, i.name.clone(), i.amount_left)).collect()
    };
    assert_eq!(view(&s), view(&t));
    assert_eq!(ids(&s), vec![1, 4, 6, 9]);
}
