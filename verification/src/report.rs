//! The notification text: one line per enabled event, in the order the events
//! were raised, encoded as UTF-8 and cut down when it grows too long.

use vstd::prelude::*;
use vstd::utf8::encode_utf8;
use crate::config::NotifyConfig;
use crate::event::ItemEvent;
use crate::model::Item;
use crate::store::{lookup, ItemStore};
use crate::text::{push_signed_decimal, push_text, signed_decimal};

verus! {

/// The lowercase hexadecimal digit of `d` (for `d < 16`).
pub open spec fn hex_char(d: nat) -> char {
    if d < 10 {
        (48 + d) as char
    } else {
        (87 + d) as char
    }
}

/// The last `count` hexadecimal digits of `v`, most significant first.
pub open spec fn hex_digits(v: nat, count: nat) -> Seq<char>
    decreases count,
{
    if count == 0 {
        Seq::<char>::empty()
    } else {
        hex_digits(v / 16, (count - 1) as nat).push(hex_char(v % 16))
    }
}

/// The hyphenated lowercase form of the UUID whose big-endian value is `id`:
/// its 32 hexadecimal digits in groups of 8, 4, 4, 4 and 12.
pub open spec fn hyphenated(id: u128) -> Seq<char> {
    let h = hex_digits(id as nat, 32);
    h.subrange(0, 8) + seq!['-'] + h.subrange(8, 12) + seq!['-'] + h.subrange(12, 16) + seq!['-']
        + h.subrange(16, 20) + seq!['-'] + h.subrange(20, 32)
}

/// The text of the UUID whose big-endian value is `id`, by
/// `uuid::Uuid::from_u128` and the crate's `Display`. Trusted: the text is the
/// hyphenated lowercase form, `hyphenated(id)`, as the crate's formatter writes it.
#[verifier::external_body]
fn uuid_text(id: u128) -> (r: String)
    ensures
        r@ == hyphenated(id),
{
    uuid::Uuid::from_u128(id).to_string()
}

/// The text of a UUID given by its big-endian value, as the notifier writes it.
pub fn uuid_string(id: u128) -> (r: String)
    ensures
        r@ == hyphenated(id),
{
    uuid_text(id)
}

/// Whether the notification of `event` is switched on.
pub open spec fn enabled(event: ItemEvent, notify: NotifyConfig) -> bool {
    match event {
        ItemEvent::Added => notify.item_added,
        ItemEvent::BecomeBuyable => notify.become_buyable,
        ItemEvent::BecomeUnbuyable => notify.become_unbuyable,
        ItemEvent::OutOfStock => notify.on_out_of_stock,
    }
}

/// The line that reports `event` about `item`.
pub open spec fn event_line(item: Item, event: ItemEvent) -> Seq<char> {
    let head = "- "@ + item.name@ + " ("@ + hyphenated(item.id);
    match event {
        ItemEvent::Added => head + ") added.\n"@,
        ItemEvent::BecomeBuyable => head + ") became buyable (stock: "@ + signed_decimal(
            item.amount_left as int,
        ) + ").\n"@,
        ItemEvent::BecomeUnbuyable => head + ") became unbuyable.\n"@,
        ItemEvent::OutOfStock => head + ") is out of stock.\n"@,
    }
}

/// The report of `events` against the items of `store`: for each event, in
/// order, whose item is in the store and whose notification is on, its line.
pub open spec fn report_text(store: Seq<Item>, events: Seq<(u128, ItemEvent)>, notify: NotifyConfig) -> Seq<char>
    decreases events.len(),
{
    if events.len() == 0 {
        Seq::<char>::empty()
    } else {
        let (id, event) = events.last();
        report_text(store, events.drop_last(), notify) + match lookup(store, id) {
            Some(item) => if enabled(event, notify) {
                event_line(item, event)
            } else {
                Seq::<char>::empty()
            },
            None => Seq::<char>::empty(),
        }
    }
}

/// A report longer than this many bytes is cut down.
pub open spec fn report_limit() -> nat {
    2000
}

/// The number of bytes of a report that is kept when it is cut down.
pub open spec fn report_kept() -> nat {
    1800
}

/// The bytes of `\n... (truncated)`, appended to a report that was cut down.
pub open spec fn truncation_notice() -> Seq<u8> {
    seq![10u8, 46u8, 46u8, 46u8, 32u8, 40u8, 116u8, 114u8, 117u8, 110u8, 99u8, 97u8, 116u8, 101u8, 100u8, 41u8]
}

/// A report as it is sent: when longer than the limit, its first bytes followed
/// by the truncation notice.
pub open spec fn sent_report(buf: Seq<u8>) -> Seq<u8> {
    if buf.len() > report_limit() {
        buf.subrange(0, report_kept() as int) + truncation_notice()
    } else {
        buf
    }
}

/// Appends the line that reports `event` about `item`.
fn push_event_line(out: &mut String, item: &Item, event: ItemEvent)
    ensures
        final(out)@ == old(out)@ + event_line(*item, event),
{
    push_text(out, "- ");
    push_text(out, item.name.as_str());
    push_text(out, " (");
    let id_text = uuid_text(item.id);
    push_text(out, id_text.as_str());
    match event {
        ItemEvent::Added => push_text(out, ") added.\n"),
        ItemEvent::BecomeBuyable => {
            push_text(out, ") became buyable (stock: ");
            push_signed_decimal(out, item.amount_left);
            push_text(out, ").\n");
        },
        ItemEvent::BecomeUnbuyable => push_text(out, ") became unbuyable.\n"),
        ItemEvent::OutOfStock => push_text(out, ") is out of stock.\n"),
    }
    assert(final(out)@ =~= old(out)@ + event_line(*item, event));
}

/// The text that reports `events` against the items of `store`, the
/// notifications of `notify` switched on; events whose item is not in the store
/// are skipped.
pub fn report(store: &ItemStore, events: &Vec<(u128, ItemEvent)>, notify: &NotifyConfig) -> (r: String)
    requires
        store.well_formed(),
    ensures
        r@ == report_text(store@, events@, *notify),
{
    let mut out = String::new();
    let mut i: usize = 0;
    while i < events.len()
        invariant
            i <= events.len(),
            store.well_formed(),
            out@ == report_text(store@, events@.subrange(0, i as int), *notify),
        decreases events.len() - i,
    {
        let ghost done = events@.subrange(0, i as int);
        assert(events@.subrange(0, i + 1).drop_last() =~= done);
        let (item_id, event) = events[i];
        match store.find(item_id) {
            Some(item) => {
                let on = match event {
                    ItemEvent::Added => notify.item_added,
                    ItemEvent::BecomeBuyable => notify.become_buyable,
                    ItemEvent::BecomeUnbuyable => notify.become_unbuyable,
                    ItemEvent::OutOfStock => notify.on_out_of_stock,
                };
                if on {
                    push_event_line(&mut out, item, event);
                } else {
                    assert(out@ =~= out@ + Seq::<char>::empty());
                }
            },
            None => {
                assert(out@ =~= out@ + Seq::<char>::empty());
            },
        }
        i = i + 1;
    }
    assert(events@.subrange(0, events.len() as int) =~= events@);
    out
}

/// The UTF-8 bytes of the report of `events`: the body of the notification
/// before it is cut down.
pub fn report_bytes(store: &ItemStore, events: &Vec<(u128, ItemEvent)>, notify: &NotifyConfig) -> (r: Vec<u8>)
    requires
        store.well_formed(),
    ensures
        r@ == encode_utf8(report_text(store@, events@, *notify)),
{
    let text = report(store, events, notify);
    vstd::slice::slice_to_vec(text.as_str().as_bytes())
}

/// Cuts a report longer than 2000 bytes down to its first 1800 bytes followed by
/// `\n... (truncated)`.
pub fn truncate_report(buf: &mut Vec<u8>)
    ensures
        final(buf)@ == sent_report(old(buf)@),
{
    if buf.len() > 2000 {
        buf.truncate(1800);
        let mut notice: Vec<u8> = vec![10u8, 46u8, 46u8, 46u8, 32u8, 40u8, 116u8, 114u8, 117u8, 110u8, 99u8, 97u8, 116u8, 101u8, 100u8, 41u8];
        buf.append(&mut notice);
        assert(final(buf)@ =~= sent_report(old(buf)@));
    }
}

/// The body of the notification about `events`, if there is anything to report:
/// the UTF-8 report, cut down when it is too long.
pub open spec fn notification_body(store: Seq<Item>, events: Seq<(u128, ItemEvent)>, notify: NotifyConfig) -> Option<Seq<u8>> {
    let bytes = encode_utf8(report_text(store, events, notify));
    if bytes.len() == 0 {
        None
    } else {
        Some(sent_report(bytes))
    }
}

/// The body of the notification to send about `events`, or `None` when there is
/// nothing to report.
pub fn notification(store: &ItemStore, events: &Vec<(u128, ItemEvent)>, notify: &NotifyConfig) -> (r: Option<Vec<u8>>)
    requires
        store.well_formed(),
    ensures
        match r {
            Some(body) => notification_body(store@, events@, *notify) == Some(body@),
            None => notification_body(store@, events@, *notify) is None,
        },
{
    let mut buf = report_bytes(store, events, notify);
    if buf.len() == 0 {
        None
    } else {
        truncate_report(&mut buf);
        Some(buf)
    }
}

/// A report as it is sent is at most the limit long, and a report within the
/// limit is sent as it is.
pub proof fn law_sent_report_bounded(buf: Seq<u8>)
    ensures
        sent_report(buf).len() <= report_limit(),
        buf.len() <= report_limit() ==> sent_report(buf) == buf,
        buf.len() > report_limit() ==> sent_report(buf).subrange(0, report_kept() as int) == buf.subrange(0, report_kept() as int),
{
    if buf.len() > report_limit() {
        assert(sent_report(buf).subrange(0, report_kept() as int) =~= buf.subrange(0, report_kept() as int));
    }
}

/// With every notification switched off, the report is empty, whatever happened.
pub proof fn law_report_silent_when_off(store: Seq<Item>, events: Seq<(u128, ItemEvent)>, notify: NotifyConfig)
    requires
        !notify.item_added,
        !notify.become_buyable,
        !notify.become_unbuyable,
        !notify.on_out_of_stock,
    ensures
        report_text(store, events, notify) == Seq::<char>::empty(),
    decreases events.len(),
{
    if events.len() > 0 {
        law_report_silent_when_off(store, events.drop_last(), notify);
        let (id, event) = events.last();
        assert(!enabled(event, notify));
        assert(report_text(store, events, notify) =~= Seq::<char>::empty());
    }
}

/// The report of events raised one after the other is the report of the earlier
/// ones followed by the report of the later ones.
pub proof fn law_report_concatenates(
    store: Seq<Item>,
    first: Seq<(u128, ItemEvent)>,
    second: Seq<(u128, ItemEvent)>,
    notify: NotifyConfig,
)
    ensures
        report_text(store, first + second, notify) == report_text(store, first, notify) + report_text(store, second, notify),
    decreases second.len(),
{
    if second.len() == 0 {
        assert(first + second =~= first);
        assert(report_text(store, first, notify) + Seq::<char>::empty() =~= report_text(store, first, notify));
    } else {
        law_report_concatenates(store, first, second.drop_last(), notify);
        assert((first + second).drop_last() =~= first + second.drop_last());
        assert((first + second).last() == second.last());
        let a = report_text(store, first, notify);
        let b = report_text(store, second.drop_last(), notify);
        let (id, event) = second.last();
        let line = match lookup(store, id) {
            Some(item) => if enabled(event, notify) {
                event_line(item, event)
            } else {
                Seq::<char>::empty()
            },
            None => Seq::<char>::empty(),
        };
        assert((a + b) + line =~= a + (b + line));
    }
}

/// A notification, when there is one, is neither empty nor longer than the limit.
pub proof fn law_notification_bounded(store: Seq<Item>, events: Seq<(u128, ItemEvent)>, notify: NotifyConfig)
    ensures
        notification_body(store, events, notify) matches Some(body) ==> 0 < body.len() <= report_limit(),
{
    let bytes = encode_utf8(report_text(store, events, notify));
    law_sent_report_bounded(bytes);
}

/// Each event is reported under its own switch: a single event about a stored
/// item gives that item's line for the event when the switch named for the
/// event is on, and nothing otherwise, whatever the other switches say.
pub proof fn law_report_switches(store: Seq<Item>, id: u128, item: Item, notify: NotifyConfig)
    requires
        lookup(store, id) == Some(item),
    ensures
        report_text(store, seq![(id, ItemEvent::Added)], notify) == if notify.item_added {
            event_line(item, ItemEvent::Added)
        } else {
            Seq::<char>::empty()
        },
        report_text(store, seq![(id, ItemEvent::BecomeBuyable)], notify) == if notify.become_buyable {
            event_line(item, ItemEvent::BecomeBuyable)
        } else {
            Seq::<char>::empty()
        },
        report_text(store, seq![(id, ItemEvent::BecomeUnbuyable)], notify) == if notify.become_unbuyable {
            event_line(item, ItemEvent::BecomeUnbuyable)
        } else {
            Seq::<char>::empty()
        },
        report_text(store, seq![(id, ItemEvent::OutOfStock)], notify) == if notify.on_out_of_stock {
            event_line(item, ItemEvent::OutOfStock)
        } else {
            Seq::<char>::empty()
        },
        event_line(item, ItemEvent::Added).len() > 0,
        event_line(item, ItemEvent::BecomeBuyable).len() > 0,
        event_line(item, ItemEvent::BecomeUnbuyable).len() > 0,
        event_line(item, ItemEvent::OutOfStock).len() > 0,
{
    reveal_strlit("- ");
    assert forall|e: ItemEvent| #![auto] true implies report_text(store, seq![(id, e)], notify) == Seq::<char>::empty() + (if enabled(e, notify) {
        event_line(item, e)
    } else {
        Seq::<char>::empty()
    }) by {
        assert(seq![(id, e)].drop_last() =~= Seq::<(u128, ItemEvent)>::empty());
        assert(report_text(store, Seq::<(u128, ItemEvent)>::empty(), notify) == Seq::<char>::empty());
        assert(seq![(id, e)].last() == (id, e));
    }
    assert forall|e: ItemEvent| #![auto] true implies event_line(item, e).len() > 0 by {
        assert(event_line(item, e)[0] == '-');
    }
    assert(Seq::<char>::empty() + event_line(item, ItemEvent::Added) =~= event_line(item, ItemEvent::Added));
    assert(Seq::<char>::empty() + event_line(item, ItemEvent::BecomeBuyable) =~= event_line(item, ItemEvent::BecomeBuyable));
    assert(Seq::<char>::empty() + event_line(item, ItemEvent::BecomeUnbuyable) =~= event_line(item, ItemEvent::BecomeUnbuyable));
    assert(Seq::<char>::empty() + event_line(item, ItemEvent::OutOfStock) =~= event_line(item, ItemEvent::OutOfStock));
    assert(Seq::<char>::empty() + Seq::<char>::empty() =~= Seq::<char>::empty());
}

} // verus!
