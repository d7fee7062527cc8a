//! What holds of bytes on their way in and out.

use crate::db::EventView;
use crate::download::{AccountingView, StreamEvent};
use crate::net::IpAddr;
use crate::shares::grown;
use vstd::prelude::*;

verus! {

// ---------------------------------------------------------------------------
// Out

/// Something that happens to the stream of an answer, and when.
pub struct Timed {
    pub event: StreamEvent,
    pub now: i64,
}

/// How far an answer has got after a number of events.
pub open spec fn after_events(a: AccountingView, events: Seq<Timed>) -> AccountingView
    decreases events.len(),
{
    if events.len() == 0 {
        a
    } else {
        after_events(a, events.drop_last()).after(events.last().event)
    }
}

/// What is recorded in the course of a number of events.
pub open spec fn records(a: AccountingView, events: Seq<Timed>) -> Seq<EventView>
    decreases events.len(),
{
    if events.len() == 0 {
        Seq::empty()
    } else {
        let before = after_events(a, events.drop_last());
        let so_far = records(a, events.drop_last());
        match before.recorded_on(events.last().event, events.last().now) {
            Some(e) => so_far.push(e),
            None => so_far,
        }
    }
}

/// The bytes that went out in a number of events.
pub open spec fn bytes_sent(events: Seq<Timed>) -> int
    decreases events.len(),
{
    if events.len() == 0 {
        0
    } else {
        bytes_sent(events.drop_last()) + match events.last().event {
            StreamEvent::Sent(n) => n as int,
            _ => 0,
        }
    }
}

/// Whether the stream came to an end in one way or another.
pub open spec fn is_over(events: Seq<Timed>) -> bool {
    exists|i: int| 0 <= i < events.len() && !((#[trigger] events[i]).event is Sent)
}

proof fn lemma_transferred(a: AccountingView, events: Seq<Timed>)
    requires
        a.transferred == 0,
    ensures
        bytes_sent(events) >= 0,
        after_events(a, events).transferred == if bytes_sent(events) <= u64::MAX {
            bytes_sent(events)
        } else {
            u64::MAX as int
        },
        after_events(a, events).expected_bytes == a.expected_bytes,
        after_events(a, events).share_id == a.share_id,
        after_events(a, events).client_ip == a.client_ip,
    decreases events.len(),
{
    if events.len() > 0 {
        lemma_transferred(a, events.drop_last());
    }
}

/// A download is recorded once it is over and not before, and whatever happens
/// then, it is recorded once.
pub proof fn law_download_is_recorded_once(a: AccountingView, events: Seq<Timed>)
    requires
        !a.recorded,
    ensures
        records(a, events).len() == if is_over(events) {
            1nat
        } else {
            0
        },
        after_events(a, events).recorded == is_over(events),
    decreases events.len(),
{
    if events.len() > 0 {
        let front = events.drop_last();
        law_download_is_recorded_once(a, front);
        if is_over(front) {
            let i = choose|i: int| 0 <= i < front.len() && !((#[trigger] front[i]).event is Sent);
            assert(!(events[i].event is Sent));
        }
        if is_over(events) {
            let i = choose|i: int| 0 <= i < events.len() && !((#[trigger] events[i]).event is Sent);
            if i < front.len() {
                assert(!(front[i].event is Sent));
            }
        }
        if !(events.last().event is Sent) {
            assert(!(events[events.len() - 1].event is Sent));
        }
    }
}

/// What is recorded is about the share and the client that the answer was for; it
/// says how many bytes went out, and that the download is complete only where
/// these are all that were promised.
pub proof fn law_record_says_what_was_sent(
    a: AccountingView,
    events: Seq<Timed>,
    now: i64,
    last: StreamEvent,
)
    requires
        a.transferred == 0,
        !a.recorded,
        !is_over(events),
        !(last is Sent),
    ensures
        ({
            let record = after_events(a, events).recorded_on(last, now);
            &&& record is Some
            &&& record->0.share_id == a.share_id
            &&& record->0.ip == a.client_ip
            &&& record->0.timestamp == now
            &&& record->0.bytes_transferred == if bytes_sent(events) <= i64::MAX {
                bytes_sent(events)
            } else {
                i64::MAX as int
            }
            &&& record->0.completed ==> last is Ended
            &&& a.expected_bytes < u64::MAX ==> (record->0.completed <==> last is Ended
                && bytes_sent(events) == a.expected_bytes)
        }),
{
    lemma_transferred(a, events);
    law_download_is_recorded_once(a, events);
}

/// An answer begins with nothing sent and nothing recorded. What goes out adds up, as
/// far as it can be counted, and changes nothing else; whatever else happens is the
/// end of it.
pub proof fn law_bytes_out_add_up(
    id: Seq<char>,
    ip: IpAddr,
    expected: u64,
    a: AccountingView,
    n: usize,
    event: StreamEvent,
    now: i64,
)
    ensures
        AccountingView::new(id, ip, expected) == (AccountingView {
            share_id: id,
            client_ip: ip,
            expected_bytes: expected,
            transferred: 0,
            recorded: false,
        }),
        a.after(StreamEvent::Sent(n)) == (AccountingView {
            transferred: if a.transferred + n <= 0xffff_ffff_ffff_ffff {
                (a.transferred + n) as u64
            } else {
                0xffff_ffff_ffff_ffff
            },
            ..a
        }),
        a.recorded_on(StreamEvent::Sent(n), now) is None,
        !(event is Sent) ==> a.after(event) == (AccountingView { recorded: true, ..a }),
        a.recorded ==> a.recorded_on(event, now) is None,
        !a.recorded && !(event is Sent) ==> a.recorded_on(event, now) == Some(
            EventView {
                share_id: a.share_id,
                ip: a.client_ip,
                timestamp: now,
                bytes_transferred: if a.transferred <= 0x7fff_ffff_ffff_ffff {
                    a.transferred as i64
                } else {
                    0x7fff_ffff_ffff_ffff
                },
                completed: event is Ended && a.transferred == a.expected_bytes,
            },
        ),
{
}

/// A record says of a download what it is told, where there was none before.
pub proof fn law_record_is_made_once(a: AccountingView, completed: bool, now: i64)
    ensures
        a.recorded ==> a.record(completed, now) is None,
        !a.recorded ==> a.record(completed, now) == Some(
            EventView {
                share_id: a.share_id,
                ip: a.client_ip,
                timestamp: now,
                bytes_transferred: if a.transferred <= 0x7fff_ffff_ffff_ffff {
                    a.transferred as i64
                } else {
                    0x7fff_ffff_ffff_ffff
                },
                completed: completed,
            },
        ),
{
}

// ---------------------------------------------------------------------------
// In

/// What the size of an upload is after a number of chunks; nothing, where one of
/// them was refused.
pub open spec fn received(size: i64, chunks: Seq<usize>, max: u64) -> Option<i64>
    decreases chunks.len(),
{
    if chunks.len() == 0 {
        Some(size)
    } else {
        match received(size, chunks.drop_last(), max) {
            Some(so_far) => grown(so_far, chunks.last(), max),
            None => None,
        }
    }
}

/// The lengths of the chunks, added up.
pub open spec fn total(chunks: Seq<usize>) -> int
    decreases chunks.len(),
{
    if chunks.len() == 0 {
        0
    } else {
        total(chunks.drop_last()) + chunks.last()
    }
}

/// An upload is accepted if and only if it is no longer than the limit, in
/// whatever pieces it arrives, and its size is then what arrived.
pub proof fn law_upload_stays_within_the_limit(chunks: Seq<usize>, max: u64)
    ensures
        total(chunks) >= 0,
        received(0, chunks, max) == if total(chunks) <= max && total(chunks) <= i64::MAX {
            Some(total(chunks) as i64)
        } else {
            None
        },
    decreases chunks.len(),
{
    if chunks.len() > 0 {
        law_upload_stays_within_the_limit(chunks.drop_last(), max);
    }
}

} // verus!
