# openbar-notifier

OpenBar-Notifier informs you about changes in the stocks of an OpenBar
instance: new items, items that become buyable or unbuyable, and items that run
out of stock. It fetches the items, records them in a store file, and posts the
changes of interest to webhook URLs.

The decisions are made by a library verified with Verus; a small program does
the I/O around it.

## Layout

- `src/` — the verified library
  - `store.rs`: the item store, ordered by item id, with binary search
  - `tracking.rs`: the events an observation of an item raises, and the store update
  - `report.rs`: the notification text, its UTF-8 bytes, and its truncation
  - `config.rs`: the configuration read from environment variables
  - `apis.rs`: query-string encoding, `deepObject` parameters, content types, client errors
  - `openbar.rs`: the API client's configuration and the web configuration's address
  - `model.rs`, `event.rs`, `text.rs`: items, events, and text helpers
- `app/` — the program: environment, HTTP, store file, and the notification posts
- `tests/` — tests of the library

## Configuration

- `STORE_PATH` (optional): path of the store file (default `./item_store.json`)
- `OPENBAR_INSTANCE_URL`, `OPENBAR_CARD_ID`, `OPENBAR_PIN` (required)
- `NOTIFY_ITEM_ADDED`, `NOTIFY_BECOME_BUYABLE`, `NOTIFY_BECOME_UNBUYABLE`,
  `NOTIFY_ON_OUT_OF_STOCK` (default false): which events are notified
- `NOTIFICATION_TARGETS`: comma-separated list of webhook URLs
