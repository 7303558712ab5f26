use openbar_notifier::config::NotifyConfig;
use openbar_notifier::event::ItemEvent;
use openbar_notifier::model::{Item, ItemState};
use openbar_notifier::report::{notification, report, report_bytes, truncate_report, uuid_string};
use openbar_notifier::store::ItemStore;

const ID: u128 = 0x67e5504410b1426f9247bb680e5fe0c8;

fn all_on() -> NotifyConfig {
    NotifyConfig { item_added: true, become_buyable: true, become_unbuyable: true, on_out_of_stock: true }
}

fn store_with(name: &str, amount_left: i64) -> ItemStore {
    let mut store = ItemStore::new();
    store.append(Item { id: ID, name: name.to_string(), state: ItemState::ItemBuyable, amount_left });
    store
}

#[test]
fn uuid_text_is_hyphenated_lowercase() {
    assert_eq!(uuid_string(ID), "67e55044-10b1-426f-9247-bb680e5fe0c8");
    assert_eq!(uuid_string(0), "00000000-0000-0000-0000-000000000000");
    assert_eq!(uuid_string(u128::MAX), "ffffffff-ffff-ffff-ffff-ffffffffffff");
}

#[test]
fn each_event_has_its_line() {
    let store = store_with("Sandwich", 3);
    let events = vec![
        (ID, ItemEvent::Added),
        (ID, ItemEvent::BecomeBuyable),
        (ID, ItemEvent::BecomeUnbuyable),
        (ID, ItemEvent::OutOfStock),
    ];
    let text = report(&store, &events, &all_on());
    assert_eq!(
        text,
        "- Sandwich (67e55044-10b1-426f-9247-bb680e5fe0c8) added.\n\
         - Sandwich (67e55044-10b1-426f-9247-bb680e5fe0c8) became buyable (stock: 3).\n\
         - Sandwich (67e55044-10b1-426f-9247-bb680e5fe0c8) became unbuyable.\n\
         - Sandwich (67e55044-10b1-426f-9247-bb680e5fe0c8) is out of stock.\n"
    );
}

#[test]
fn stock_is_written_in_decimal_with_its_sign() {
    let events = vec![(ID, ItemEvent::BecomeBuyable)];
    assert!(report(&store_with("A", -12), &events, &all_on()).ends_with("(stock: -12).\n"));
    assert!(report(&store_with("A", 0), &events, &all_on()).ends_with("(stock: 0).\n"));
    assert!(report(&store_with("A", i64::MIN), &events, &all_on()).ends_with("(stock: -9223372036854775808).\n"));
    assert!(report(&store_with("A", 1050), &events, &all_on()).ends_with("(stock: 1050).\n"));
}

#[test]
fn switched_off_events_are_left_out() {
    let store = store_with("Sandwich", 3);
    let events = vec![(ID, ItemEvent::Added), (ID, ItemEvent::OutOfStock)];
    let notify = NotifyConfig { item_added: false, become_buyable: true, become_unbuyable: true, on_out_of_stock: true };
    assert_eq!(
        report(&store, &events, &notify),
        "- Sandwich (67e55044-10b1-426f-9247-bb680e5fe0c8) is out of stock.\n"
    );
    assert_eq!(report(&store, &events, &NotifyConfig::default()), "");
}

#[test]
fn events_of_unknown_items_are_skipped() {
    let store = store_with("Sandwich", 3);
    let events = vec![(1, ItemEvent::Added), (ID, ItemEvent::Added)];
    assert_eq!(
        report(&store, &events, &all_on()),
        "- Sandwich (67e55044-10b1-426f-9247-bb680e5fe0c8) added.\n"
    );
}

#[test]
fn report_bytes_are_utf8() {
    let store = store_with("Crêpe", 1);
    let events = vec![(ID, ItemEvent::Added)];
    let bytes = report_bytes(&store, &events, &all_on());
    assert_eq!(bytes, "- Crêpe (67e55044-10b1-426f-9247-bb680e5fe0c8) added.\n".as_bytes().to_vec());
}

#[test]
fn long_reports_are_cut_down() {
    let mut buf = vec![b'x'; 2001];
    truncate_report(&mut buf);
    assert_eq!(buf.len(), 1816);
    assert!(buf[..1800].iter().all(|b| *b == b'x'));
    assert_eq!(&buf[1800..], b"\n... (truncated)");

    let mut at_limit = vec![b'y'; 2000];
    truncate_report(&mut at_limit);
    assert_eq!(at_limit, vec![b'y'; 2000]);

    let mut empty: Vec<u8> = Vec::new();
    truncate_report(&mut empty);
    assert!(empty.is_empty());
}

#[test]
fn report_of_joined_events_is_joined_reports() {
    let store = store_with("Sandwich", 3);
    let first = vec![(ID, ItemEvent::Added), (7, ItemEvent::Added)];
    let second = vec![(ID, ItemEvent::OutOfStock)];
    let mut both = first.clone();
    both.extend(second.iter().cloned());
    let joined = report(&store, &both, &all_on());
    let parts = report(&store, &first, &all_on()) + &report(&store, &second, &all_on());
    assert_eq!(joined, parts);
}

#[test]
fn notification_only_when_there_is_something_to_report() {
    let store = store_with("Sandwich", 3);
    assert!(notification(&store, &vec![], &all_on()).is_none());
    assert!(notification(&store, &vec![(ID, ItemEvent::Added)], &NotifyConfig::default()).is_none());
    let body = notification(&store, &vec![(ID, ItemEvent::Added)], &all_on()).unwrap();
    assert_eq!(body, "- Sandwich (67e55044-10b1-426f-9247-bb680e5fe0c8) added.\n".as_bytes().to_vec());
}

#[test]
fn long_notifications_are_cut_down() {
    let mut store = ItemStore::new();
    let mut events = Vec::new();
    for id in 0..100u128 {
        store.append(Item { id, name: "Long sandwich name".to_string(), state: ItemState::ItemBuyable, amount_left: 1 });
        events.push((id, ItemEvent::Added));
    }
    let body = notification(&store, &events, &all_on()).unwrap();
    assert_eq!(body.len(), 1816);
    assert!(body.ends_with(b"\n... (truncated)"));
}
