//! What holds of the registry, whatever is done to it.

use crate::db::{
    distinct_entries, distinct_names, entries_of, folder_insertion, insertion, lists_all,
    newest_first, rows_of, DbError, EntryRowView, EntryView, EventView, FailureView, RegistryView,
    ShareView,
};
use crate::download::{loaded, servable};
use crate::error::ErrorView;
use crate::laws::filters::{
    lemma_filter_all, lemma_filter_concat, lemma_filter_filter, lemma_filter_none,
    lemma_filter_push,
};
use crate::net::IpAddr;
use crate::shares::summaries;
use vstd::prelude::*;

verus! {

/// What can be done to the registry.
pub enum Operation {
    Insert { share: ShareView },
    InsertFolder { share: ShareView, entries: Seq<EntryView> },
    Count { id: Seq<char> },
    Claim { id: Seq<char>, now: i64 },
    Revoke { id: Seq<char> },
    Delete { id: Seq<char> },
    Update {
        id: Seq<char>,
        expires_at: Option<Option<i64>>,
        max_downloads: Option<Option<i64>>,
        password_hash: Option<Option<Seq<char>>>,
    },
    Expire { now: i64 },
    RecordDownload { event: EventView },
    RecordFailure { id: Seq<char>, ip: IpAddr, ts: i64 },
}

/// What the registry is after an operation. A share whose id is taken is not put
/// in, nor is a folder in which two files have one stored name.
pub open spec fn after(v: RegistryView, op: Operation) -> RegistryView {
    match op {
        Operation::Insert { share } => if v.shares.contains_key(share.id) {
            v
        } else {
            v.put(share)
        },
        Operation::InsertFolder { share, entries } => if v.shares.contains_key(share.id)
            || !distinct_names(entries) {
            v
        } else {
            v.put_folder(share, entries)
        },
        Operation::Count { id } => if v.shares.contains_key(id) {
            v.put(v.shares[id].counted_once_more())
        } else {
            v
        },
        Operation::Claim { id, now } => v.after_claim(id, now),
        Operation::Revoke { id } => v.after_revoke(id),
        Operation::Delete { id } => v.after_delete(id),
        Operation::Update { id, expires_at, max_downloads, password_hash } => v.after_update(
            id,
            expires_at,
            max_downloads,
            password_hash,
        ),
        Operation::Expire { now } => v.after_expiry(now),
        Operation::RecordDownload { event } => if v.events.len() < i64::MAX {
            RegistryView { events: v.events.push(event), ..v }
        } else {
            v
        },
        Operation::RecordFailure { id, ip, ts } => if v.failures.len() < i64::MAX {
            v.with_failure(id, ip, ts)
        } else {
            v
        },
    }
}

/// What the registry is after operations, one after the other.
pub open spec fn after_all(v: RegistryView, ops: Seq<Operation>) -> RegistryView
    decreases ops.len(),
{
    if ops.len() == 0 {
        v
    } else {
        after(after_all(v, ops.drop_last()), ops.last())
    }
}

/// The share that an operation is about, if it is about one.
pub open spec fn subject(op: Operation) -> Option<Seq<char>> {
    match op {
        Operation::Insert { share } => Some(share.id),
        Operation::InsertFolder { share, .. } => Some(share.id),
        Operation::Count { id } => Some(id),
        Operation::Claim { id, .. } => Some(id),
        Operation::Revoke { id } => Some(id),
        Operation::Delete { id } => Some(id),
        Operation::Update { id, .. } => Some(id),
        _ => None,
    }
}

/// The rows that a filter takes out of the entries of other shares are none of
/// this one.
proof fn lemma_delete_entries(rows: Seq<EntryRowView>, id: Seq<char>, other: Seq<char>)
    ensures
        entries_of(rows.filter(|r: EntryRowView| r.share_id != id), other) == if id == other {
            Seq::<EntryView>::empty()
        } else {
            entries_of(rows, other)
        },
{
    let keep = |r: EntryRowView| r.share_id != id;
    let of = |r: EntryRowView| r.share_id == other;
    if id == other {
        broadcast use vstd::seq_lib::group_filter_ensures;

        let kept = rows.filter(keep);
        assert forall|i: int| 0 <= i < kept.len() implies !of(#[trigger] kept[i]) by {
            assert(keep(kept[i]));
        }
        lemma_filter_none(kept, of);
        assert(entries_of(kept, other) =~= Seq::<EntryView>::empty());
    } else {
        lemma_filter_filter(rows, keep, of);
    }
}

// ---------------------------------------------------------------------------
// What goes in comes out

/// A share that was put in is found under its id, as it was put in.
pub proof fn law_inserted_share_is_found(v: RegistryView, share: ShareView)
    requires
        v.valid(),
        !v.shares.contains_key(share.id),
    ensures
        after(v, Operation::Insert { share: share }).shares.contains_key(share.id),
        after(v, Operation::Insert { share: share }).shares[share.id] == share,
        entries_of(after(v, Operation::Insert { share: share }).entries, share.id) == Seq::<
            EntryView,
        >::empty(),
{
    let of = |r: EntryRowView| r.share_id == share.id;
    assert forall|i: int| 0 <= i < v.entries.len() implies !of(#[trigger] v.entries[i]) by {
        assert(v.shares.contains_key(v.entries[i].share_id));
    }
    lemma_filter_none(v.entries, of);
    assert(entries_of(v.entries, share.id) =~= Seq::<EntryView>::empty());
}

/// A folder that was put in is found under its id, with its files in the order in
/// which they were put in.
pub proof fn law_inserted_folder_is_found(
    v: RegistryView,
    share: ShareView,
    entries: Seq<EntryView>,
)
    requires
        v.valid(),
        !v.shares.contains_key(share.id),
        distinct_names(entries),
    ensures
        after(v, Operation::InsertFolder { share: share, entries: entries }).shares.contains_key(
            share.id,
        ),
        after(v, Operation::InsertFolder { share: share, entries: entries }).shares[share.id]
            == share,
        entries_of(
            after(v, Operation::InsertFolder { share: share, entries: entries }).entries,
            share.id,
        ) == entries,
{
    let of = |r: EntryRowView| r.share_id == share.id;
    assert forall|i: int| 0 <= i < v.entries.len() implies !of(#[trigger] v.entries[i]) by {
        assert(v.shares.contains_key(v.entries[i].share_id));
    }
    let new = rows_of(share.id, entries);
    lemma_filter_none(v.entries, of);
    lemma_filter_all(new, of);
    lemma_filter_concat(v.entries, new, of);
    assert((v.entries + new).filter(of) =~= new);
    assert(entries_of(v.entries + new, share.id) =~= entries);
}

/// A share that was taken out is gone with all its files, and can be served to
/// nobody.
pub proof fn law_deleted_share_is_gone(
    v: RegistryView,
    id: Seq<char>,
    allow_exhausted: bool,
    now: i64,
)
    ensures
        !after(v, Operation::Delete { id: id }).shares.contains_key(id),
        entries_of(after(v, Operation::Delete { id: id }).entries, id) == Seq::<EntryView>::empty(),
        !servable(after(v, Operation::Delete { id: id }), id, allow_exhausted, now),
{
    lemma_delete_entries(v.entries, id, id);
}

/// What is done to one share leaves every other share and its files as they were.
pub proof fn law_other_shares_are_left_alone(v: RegistryView, op: Operation, other: Seq<char>)
    requires
        v.valid(),
        subject(op) is Some,
        subject(op) != Some(other),
    ensures
        after(v, op).shares.contains_key(other) == v.shares.contains_key(other),
        v.shares.contains_key(other) ==> after(v, op).shares[other] == v.shares[other],
        entries_of(after(v, op).entries, other) == entries_of(v.entries, other),
        after(v, op).failures == v.failures,
        after(v, op).events == v.events,
{
    let of = |r: EntryRowView| r.share_id == other;
    match op {
        Operation::InsertFolder { share, entries } => {
            let new = rows_of(share.id, entries);
            lemma_filter_none(new, of);
            lemma_filter_concat(v.entries, new, of);
            assert((v.entries + new).filter(of) =~= v.entries.filter(of));
        },
        Operation::Delete { id } => {
            lemma_delete_entries(v.entries, id, other);
        },
        _ => {},
    }
}

proof fn lemma_filter_keeps_distinct(rows: Seq<EntryRowView>, p: spec_fn(EntryRowView) -> bool)
    requires
        distinct_entries(rows),
    ensures
        distinct_entries(rows.filter(p)),
        forall|k: int|
            0 <= k < rows.filter(p).len() ==> rows.contains(#[trigger] rows.filter(p)[k]),
    decreases rows.len(),
{
    reveal(Seq::filter);
    if rows.len() > 0 {
        let front = rows.drop_last();
        assert(distinct_entries(front)) by {
            assert forall|i: int, j: int|
                0 <= i < j < front.len() && (#[trigger] front[i]).share_id == (
                #[trigger] front[j]).share_id implies front[i].entry.stored_name
                != front[j].entry.stored_name by {
                assert(rows[i].share_id == rows[j].share_id);
            }
        }
        lemma_filter_keeps_distinct(front, p);
        let kept = front.filter(p);
        assert forall|k: int| 0 <= k < kept.len() implies rows.contains(#[trigger] kept[k]) by {
            let i = choose|i: int| 0 <= i < front.len() && front[i] == kept[k];
            assert(rows[i] == kept[k]);
        }
        if p(rows.last()) {
            let all = kept.push(rows.last());
            assert forall|i: int, j: int|
                0 <= i < j < all.len() && (#[trigger] all[i]).share_id == (
                #[trigger] all[j]).share_id implies all[i].entry.stored_name
                != all[j].entry.stored_name by {
                if j < kept.len() {
                    assert(kept[i].share_id == kept[j].share_id);
                } else {
                    assert(front.contains(kept[i]));
                    let a = choose|a: int| 0 <= a < front.len() && front[a] == kept[i];
                    assert(rows[a].share_id == rows[rows.len() - 1].share_id);
                }
            }
            assert forall|k: int| 0 <= k < all.len() implies rows.contains(#[trigger] all[k]) by {
                if k == kept.len() {
                    assert(rows[rows.len() - 1] == all[k]);
                }
            }
        }
    }
}

/// Every operation keeps what holds of the tables at all times.
pub proof fn law_operations_keep_the_registry_valid(v: RegistryView, op: Operation)
    requires
        v.valid(),
    ensures
        after(v, op).valid(),
{
    let w = after(v, op);
    match op {
        Operation::InsertFolder { share, entries } => {
            if !v.shares.contains_key(share.id) && distinct_names(entries) {
                let new = rows_of(share.id, entries);
                assert forall|i: int| 0 <= i < v.entries.len() implies (
                #[trigger] v.entries[i]).share_id != share.id by {
                    assert(v.shares.contains_key(v.entries[i].share_id));
                }
                assert forall|i: int, j: int|
                    0 <= i < j < w.entries.len() && (#[trigger] w.entries[i]).share_id == (
                    #[trigger] w.entries[j]).share_id implies w.entries[i].entry.stored_name
                    != w.entries[j].entry.stored_name by {
                    let n = v.entries.len() as int;
                    if j < n {
                        assert(v.entries[i].share_id == v.entries[j].share_id);
                    } else if i >= n {
                        assert(w.entries[i].entry == entries[i - n]);
                        assert(w.entries[j].entry == entries[j - n]);
                    } else {
                        assert(v.entries[i].share_id != share.id);
                    }
                }
                assert forall|i: int| 0 <= i < w.entries.len() implies w.shares.contains_key(
                    (#[trigger] w.entries[i]).share_id,
                ) by {
                    if i < v.entries.len() {
                        assert(v.shares.contains_key(v.entries[i].share_id));
                    }
                }
            }
        },
        Operation::Delete { id } => {
            let keep = |r: EntryRowView| r.share_id != id;
            lemma_filter_keeps_distinct(v.entries, keep);
            broadcast use vstd::seq_lib::group_filter_ensures;

            assert forall|i: int| 0 <= i < w.entries.len() implies w.shares.contains_key(
                (#[trigger] w.entries[i]).share_id,
            ) by {
                assert(keep(w.entries[i]));
                assert(v.entries.contains(w.entries[i]));
            }
        },
        _ => {},
    }
}

// ---------------------------------------------------------------------------
// Expiry and revocation

/// Revoking what has expired changes no answer: at no later time could the share
/// have been served anyway, and nothing else is touched.
pub proof fn law_expiry_sweep_changes_no_answer(
    v: RegistryView,
    id: Seq<char>,
    allow_exhausted: bool,
    swept: i64,
    now: i64,
)
    requires
        swept <= now,
    ensures
        loaded(v.after_expiry(swept), id, allow_exhausted, now) == loaded(
            v,
            id,
            allow_exhausted,
            now,
        ),
        v.after_expiry(swept).claimable(id, now) == v.claimable(id, now),
        v.after_expiry(swept).shares.dom() == v.shares.dom(),
        v.after_expiry(swept).entries == v.entries,
{
    reveal_strlit("active");
    reveal_strlit("revoked");
    assert("active"@.len() != "revoked"@.len());
    assert(v.after_expiry(swept).shares.dom() =~= v.shares.dom());
}

/// A share cannot be served at all: it is not there, or it is not active.
pub open spec fn is_dead(v: RegistryView, id: Seq<char>) -> bool {
    !v.shares.contains_key(id) || !v.shares[id].active()
}

/// Whether an operation puts in a share with this id.
pub open spec fn puts_in(op: Operation, id: Seq<char>) -> bool {
    match op {
        Operation::Insert { share } => share.id == id,
        Operation::InsertFolder { share, .. } => share.id == id,
        _ => false,
    }
}

/// A share that was revoked, or taken out, stays out of reach whatever is done
/// to the registry: no change of settings, no claim and no sweep brings it back.
pub proof fn law_revoked_share_stays_unreachable(
    v: RegistryView,
    ops: Seq<Operation>,
    id: Seq<char>,
    allow_exhausted: bool,
    now: i64,
)
    requires
        v.valid(),
        is_dead(v, id),
        forall|i: int| 0 <= i < ops.len() ==> !puts_in(#[trigger] ops[i], id),
    ensures
        is_dead(after_all(v, ops), id),
        after_all(v, ops).valid(),
        !servable(after_all(v, ops), id, allow_exhausted, now),
        !after_all(v, ops).claimable(id, now),
    decreases ops.len(),
{
    reveal_strlit("active");
    reveal_strlit("revoked");
    assert("active"@.len() != "revoked"@.len());
    if ops.len() > 0 {
        let front = ops.drop_last();
        assert forall|i: int| 0 <= i < front.len() implies !puts_in(#[trigger] front[i], id) by {
            assert(front[i] == ops[i]);
        }
        law_revoked_share_stays_unreachable(v, front, id, allow_exhausted, now);
        law_operations_keep_the_registry_valid(after_all(v, front), ops.last());
        assert(!puts_in(ops[ops.len() - 1], id));
    }
}

/// Revoking a share puts it out of reach at once, and nothing that follows brings
/// it back but putting it in anew.
pub proof fn law_revocation_is_final(
    v: RegistryView,
    ops: Seq<Operation>,
    id: Seq<char>,
    allow_exhausted: bool,
    now: i64,
)
    requires
        v.valid(),
        forall|i: int| 0 <= i < ops.len() ==> !puts_in(#[trigger] ops[i], id),
    ensures
        !servable(after_all(v.after_revoke(id), ops), id, allow_exhausted, now),
        !after_all(v.after_revoke(id), ops).claimable(id, now),
{
    reveal_strlit("active");
    reveal_strlit("revoked");
    assert("active"@.len() != "revoked"@.len());
    law_operations_keep_the_registry_valid(v, Operation::Revoke { id: id });
    law_revoked_share_stays_unreachable(v.after_revoke(id), ops, id, allow_exhausted, now);
}

/// Once its time has come, a share can be served no more, and no download of it
/// can be claimed.
pub proof fn law_expired_share_is_not_served(
    v: RegistryView,
    id: Seq<char>,
    allow_exhausted: bool,
    now: i64,
)
    requires
        v.shares.contains_key(id),
        v.shares[id].expires_at matches Some(at) && at <= now,
    ensures
        !servable(v, id, allow_exhausted, now),
        !v.claimable(id, now),
{
}

// ---------------------------------------------------------------------------
// The download limit

/// How many claims of downloads of a share are granted in a run of operations.
pub open spec fn grants(v: RegistryView, ops: Seq<Operation>, id: Seq<char>) -> int
    decreases ops.len(),
{
    if ops.len() == 0 {
        0
    } else {
        let before = after_all(v, ops.drop_last());
        grants(v, ops.drop_last(), id) + match ops.last() {
            Operation::Claim { id: of, now } => if of == id && before.claimable(id, now) {
                1int
            } else {
                0
            },
            _ => 0,
        }
    }
}

/// Whether an operation leaves it to the claims how often a share was downloaded
/// and how often it may be.
pub open spec fn leaves_the_limit(op: Operation, id: Seq<char>) -> bool {
    match op {
        Operation::Count { id: of } => of != id,
        Operation::Delete { id: of } => of != id,
        Operation::Update { id: of, max_downloads, .. } => of != id || max_downloads is None,
        _ => true,
    }
}

/// However the claims of a share arrive, and whatever is done between them, no
/// more are granted than its limit leaves, and each one that is granted is
/// counted.
pub proof fn law_claims_stay_within_the_limit(
    v: RegistryView,
    ops: Seq<Operation>,
    id: Seq<char>,
    max: i64,
)
    requires
        v.valid(),
        v.shares.contains_key(id),
        v.shares[id].max_downloads == Some(max),
        v.shares[id].download_count <= max,
        forall|i: int| 0 <= i < ops.len() ==> leaves_the_limit(#[trigger] ops[i], id),
    ensures
        after_all(v, ops).valid(),
        after_all(v, ops).shares.contains_key(id),
        after_all(v, ops).shares[id].max_downloads == Some(max),
        after_all(v, ops).shares[id].download_count == v.shares[id].download_count + grants(
            v,
            ops,
            id,
        ),
        v.shares[id].download_count + grants(v, ops, id) <= max,
    decreases ops.len(),
{
    if ops.len() > 0 {
        let front = ops.drop_last();
        assert forall|i: int| 0 <= i < front.len() implies leaves_the_limit(
            #[trigger] front[i],
            id,
        ) by {
            assert(front[i] == ops[i]);
        }
        law_claims_stay_within_the_limit(v, front, id, max);
        let before = after_all(v, front);
        law_operations_keep_the_registry_valid(before, ops.last());
        assert(leaves_the_limit(ops[ops.len() - 1], id));
    }
}

/// Once the limit is used up, no further claim is granted.
pub proof fn law_used_up_share_grants_nothing(v: RegistryView, id: Seq<char>, now: i64)
    requires
        v.shares.contains_key(id),
        v.shares[id].max_downloads matches Some(max) && v.shares[id].download_count >= max,
    ensures
        !v.claimable(id, now),
        v.after_claim(id, now) == v,
        !servable(v, id, false, now),
{
}

// ---------------------------------------------------------------------------
// What each operation does to the rows

/// A download can be claimed if and only if the share is there and active, its time
/// of expiry, if it has one, is yet to come, and its count is below its limit, if
/// it has one. A share without a limit can be downloaded without end.
pub proof fn law_open_shares_can_be_claimed(v: RegistryView, id: Seq<char>, now: i64)
    ensures
        v.claimable(id, now) <==> {
            &&& v.shares.contains_key(id)
            &&& v.shares[id].status == "active"@
            &&& v.shares[id].expires_at is None || now < v.shares[id].expires_at->0
            &&& v.shares[id].max_downloads is None || v.shares[id].download_count
                < v.shares[id].max_downloads->0
        },
{
}

/// A share is served if and only if it is there, active and not expired, and below
/// its limit or asked for in a visit that was counted. What is served is the row
/// itself, and whatever is not served is answered with `NotFound`.
pub proof fn law_open_shares_are_served(
    v: RegistryView,
    id: Seq<char>,
    allow_exhausted: bool,
    now: i64,
)
    ensures
        loaded(v, id, allow_exhausted, now) is Ok <==> {
            &&& v.shares.contains_key(id)
            &&& v.shares[id].status == "active"@
            &&& v.shares[id].expires_at is None || now < v.shares[id].expires_at->0
            &&& allow_exhausted || v.shares[id].max_downloads is None
                || v.shares[id].download_count < v.shares[id].max_downloads->0
        },
        loaded(v, id, allow_exhausted, now) matches Ok(s) ==> s == v.shares[id],
        loaded(v, id, allow_exhausted, now) matches Err(e) ==> e == ErrorView::NotFound,
        servable(v, id, allow_exhausted, now) == (loaded(v, id, allow_exhausted, now) is Ok),
{
}

/// How often a share was downloaded makes no difference as long as it has no limit.
pub proof fn law_unlimited_share_does_not_wear_out(
    v: RegistryView,
    id: Seq<char>,
    count: i64,
    allow_exhausted: bool,
    now: i64,
)
    requires
        v.valid(),
        v.shares.contains_key(id),
        v.shares[id].max_downloads is None,
    ensures
        ({
            let w = RegistryView {
                shares: v.shares.insert(
                    id,
                    ShareView { download_count: count, ..v.shares[id] },
                ),
                ..v
            };
            &&& w.claimable(id, now) == v.claimable(id, now)
            &&& servable(w, id, allow_exhausted, now) == servable(v, id, allow_exhausted, now)
        }),
{
}

/// A granted claim adds one to the count of its share, and nothing else changes; a
/// claim that is not granted changes nothing at all.
pub proof fn law_claim_adds_one(v: RegistryView, id: Seq<char>, now: i64)
    requires
        v.valid(),
    ensures
        v.claimable(id, now) ==> v.after_claim(id, now) == (RegistryView {
            shares: v.shares.insert(
                id,
                ShareView {
                    download_count: (v.shares[id].download_count + 1) as i64,
                    ..v.shares[id]
                },
            ),
            ..v
        }),
        !v.claimable(id, now) ==> v.after_claim(id, now) == v,
        v.claimable(id, now) && v.shares[id].download_count < i64::MAX ==> v.after_claim(
            id,
            now,
        ).shares[id].download_count == v.shares[id].download_count + 1,
{
}

/// Counting a download adds one to the count and leaves the rest of the row.
pub proof fn law_counting_adds_one(s: ShareView)
    requires
        s.download_count < i64::MAX,
    ensures
        s.counted_once_more().download_count == s.download_count + 1,
        s.counted_once_more() == (ShareView {
            download_count: s.counted_once_more().download_count,
            ..s
        }),
{
}

/// Revoking sets the status of the share and leaves everything else: its settings,
/// its count, its files and the other shares.
pub proof fn law_revoking_sets_the_status(v: RegistryView, id: Seq<char>)
    requires
        v.valid(),
    ensures
        v.after_revoke(id) == if v.shares.contains_key(id) {
            RegistryView {
                shares: v.shares.insert(id, ShareView { status: "revoked"@, ..v.shares[id] }),
                ..v
            }
        } else {
            v
        },
{
}

/// A change of settings sets what is given and leaves the rest of the row.
pub proof fn law_update_sets_what_is_given(
    v: RegistryView,
    id: Seq<char>,
    expires_at: Option<Option<i64>>,
    max_downloads: Option<Option<i64>>,
    password_hash: Option<Option<Seq<char>>>,
)
    requires
        v.valid(),
    ensures
        ({
            let w = v.after_update(id, expires_at, max_downloads, password_hash);
            let s = v.shares[id];
            let t = w.shares[id];
            &&& w.shares.dom() == v.shares.dom()
            &&& w.entries == v.entries && w.events == v.events && w.failures == v.failures
            &&& forall|other: Seq<char>|
                other != id && v.shares.contains_key(other) ==> #[trigger] w.shares[other]
                    == v.shares[other]
            &&& v.shares.contains_key(id) ==> {
                &&& t.expires_at == if expires_at is Some {
                    expires_at->0
                } else {
                    s.expires_at
                }
                &&& t.max_downloads == if max_downloads is Some {
                    max_downloads->0
                } else {
                    s.max_downloads
                }
                &&& t.password_hash == if password_hash is Some {
                    password_hash->0
                } else {
                    s.password_hash
                }
                &&& t == (ShareView {
                    expires_at: t.expires_at,
                    max_downloads: t.max_downloads,
                    password_hash: t.password_hash,
                    ..s
                })
            }
        }),
{
    let w = v.after_update(id, expires_at, max_downloads, password_hash);
    assert(w.shares.dom() =~= v.shares.dom());
}

/// Deleting takes out the share and its files, and nothing else.
pub proof fn law_deleting_takes_out_one_share(v: RegistryView, id: Seq<char>)
    ensures
        v.after_delete(id).shares == v.shares.remove(id),
        v.after_delete(id).events == v.events,
        v.after_delete(id).failures == v.failures,
        forall|other: Seq<char>|
            #![trigger entries_of(v.entries, other)]
            other != id ==> entries_of(v.after_delete(id).entries, other) == entries_of(
                v.entries,
                other,
            ),
        forall|i: int|
            0 <= i < v.after_delete(id).entries.len() ==> (
            #[trigger] v.after_delete(id).entries[i]).share_id != id,
{
    let keep = |r: EntryRowView| r.share_id != id;
    assert forall|other: Seq<char>|
        #![trigger entries_of(v.entries, other)]
        other != id implies entries_of(v.after_delete(id).entries, other) == entries_of(
        v.entries,
        other,
    ) by {
        lemma_delete_entries(v.entries, id, other);
    }
    broadcast use vstd::seq_lib::group_filter_ensures;

    assert forall|i: int| 0 <= i < v.after_delete(id).entries.len() implies (
    #[trigger] v.after_delete(id).entries[i]).share_id != id by {
        assert(keep(v.after_delete(id).entries[i]));
    }
}

/// The sweep revokes the active shares whose time of expiry has come, and leaves
/// every other row as it is.
pub proof fn law_expiry_sweep_revokes_what_is_due(v: RegistryView, now: i64, id: Seq<char>)
    ensures
        v.overdue(id, now) <==> v.shares.contains_key(id) && v.shares[id].status == "active"@
            && v.shares[id].expires_at is Some && v.shares[id].expires_at->0 <= now,
        v.after_expiry(now).shares.contains_key(id) == v.shares.contains_key(id),
        v.shares.contains_key(id) ==> v.after_expiry(now).shares[id] == if v.shares[id].status
            == "active"@ && v.shares[id].expires_at is Some && v.shares[id].expires_at->0 <= now {
            ShareView { status: "revoked"@, ..v.shares[id] }
        } else {
            v.shares[id]
        },
        v.after_expiry(now).entries == v.entries,
        v.after_expiry(now).events == v.events,
        v.after_expiry(now).failures == v.failures,
{
}

/// Putting in a share adds its row; putting in a folder adds its files too, in
/// their order and behind all others.
pub proof fn law_putting_in_adds_rows(v: RegistryView, share: ShareView, entries: Seq<EntryView>)
    ensures
        v.put(share) == (RegistryView { shares: v.shares.insert(share.id, share), ..v }),
        v.put_folder(share, entries).shares == v.shares.insert(share.id, share),
        v.put_folder(share, entries).events == v.events,
        v.put_folder(share, entries).failures == v.failures,
        v.put_folder(share, entries).entries.len() == v.entries.len() + entries.len(),
        forall|i: int|
            0 <= i < v.entries.len() ==> #[trigger] v.put_folder(share, entries).entries[i]
                == v.entries[i],
        forall|i: int|
            0 <= i < entries.len() ==> #[trigger] v.put_folder(share, entries).entries[v.entries.len()
                + i] == (EntryRowView { share_id: share.id, entry: entries[i] }),
{
}

/// The files of a share are the rows that name it, in their order.
pub proof fn law_entries_follow_their_rows(
    rows: Seq<EntryRowView>,
    row: EntryRowView,
    id: Seq<char>,
)
    ensures
        entries_of(Seq::empty(), id) == Seq::<EntryView>::empty(),
        entries_of(rows.push(row), id) == if row.share_id == id {
            entries_of(rows, id).push(row.entry)
        } else {
            entries_of(rows, id)
        },
{
    let of = |r: EntryRowView| r.share_id == id;
    lemma_filter_none(Seq::<EntryRowView>::empty(), of);
    assert(entries_of(Seq::empty(), id) =~= Seq::<EntryView>::empty());
    lemma_filter_push(rows, row, of);
    if row.share_id == id {
        assert(entries_of(rows.push(row), id) =~= entries_of(rows, id).push(row.entry));
    }
}

/// The dashboard is told of a share what its row says, field by field; of the
/// password only whether there is one.
pub proof fn law_summary_is_faithful(s: ShareView)
    ensures
        s.summary().id == s.id,
        s.summary().display_name == s.display_name,
        s.summary().size_bytes == s.size_bytes,
        s.summary().is_folder == s.is_folder,
        s.summary().created_at == s.created_at,
        s.summary().expires_at == s.expires_at,
        s.summary().max_downloads == s.max_downloads,
        s.summary().download_count == s.download_count,
        s.summary().has_password == (s.password_hash is Some),
        s.summary().status == s.status,
{
}

/// A list of all shares has every one of them and no other, each as its row says
/// and none twice. In a list with the newest first, none is older than one that
/// follows it.
pub proof fn law_lists_are_complete(
    list: Seq<ShareView>,
    shares: Map<Seq<char>, ShareView>,
    i: int,
    j: int,
    id: Seq<char>,
)
    requires
        lists_all(list, shares),
    ensures
        0 <= i < list.len() ==> shares.contains_key(list[i].id) && shares[list[i].id] == list[i],
        0 <= i < j < list.len() ==> list[i].id != list[j].id,
        shares.contains_key(id) ==> exists|k: int|
            0 <= k < list.len() && #[trigger] list[k] == shares[id],
        newest_first(list) && 0 <= i < j < list.len() ==> list[i].created_at >= list[j].created_at,
        summaries(list).len() == list.len(),
        0 <= i < list.len() ==> summaries(list)[i] == list[i].summary(),
{
    if shares.contains_key(id) {
        let k = choose|k: int| 0 <= k < list.len() && (#[trigger] list[k]).id == id;
        assert(list[k] == shares[id]);
    }
}

/// What a row says of its share: active is the status of that name, expired is one
/// whose time has come, and used up is one whose count has reached its limit. Without
/// a time it does not expire, and without a limit it is not used up.
pub proof fn law_what_a_row_says(s: ShareView, now: i64)
    ensures
        s.active() <==> s.status == "active"@,
        s.expires_at is None ==> !s.expired(now),
        s.expires_at is Some ==> (s.expired(now) <==> s.expires_at->0 <= now),
        s.max_downloads is None ==> !s.exhausted(),
        s.max_downloads is Some ==> (s.exhausted() <==> s.max_downloads->0 <= s.download_count),
        s.claimable(now) <==> s.active() && !s.expired(now) && !s.exhausted(),
        s.revoked() == (ShareView { status: "revoked"@, ..s }),
{
}

/// What is asked of a registry at all times, and no more than that: each share stands
/// under its own id, each file belongs to a share that is there, no two files of a
/// share are stored under one name, and the row numbers have not run out.
pub proof fn law_what_a_valid_registry_is(v: RegistryView)
    ensures
        v.valid() <==> {
            &&& forall|id: Seq<char>| #[trigger] v.shares.contains_key(id) ==> v.shares[id].id == id
            &&& forall|i: int|
                0 <= i < v.entries.len() ==> v.shares.contains_key((#[trigger] v.entries[i]).share_id)
            &&& forall|i: int, j: int|
                0 <= i < j < v.entries.len() && (#[trigger] v.entries[i]).share_id == (
                #[trigger] v.entries[j]).share_id ==> v.entries[i].entry.stored_name
                    != v.entries[j].entry.stored_name
            &&& v.events.len() <= 0x7fff_ffff_ffff_ffff
            &&& v.failures.len() <= 0x7fff_ffff_ffff_ffff
        },
        RegistryView::empty() == (RegistryView {
            shares: Map::empty(),
            entries: Seq::empty(),
            events: Seq::empty(),
            failures: Seq::empty(),
        }),
        RegistryView::empty().valid(),
{
}

/// A share is registered, as it is, where its id is free; where it is taken, nothing
/// changes. A folder is registered with all its files or not at all.
pub proof fn law_registering_takes_a_free_id(
    v: RegistryView,
    after: RegistryView,
    share: ShareView,
    entries: Seq<EntryView>,
    r: Result<(), DbError>,
)
    ensures
        insertion(v, after, share, r) ==> {
            &&& r is Ok <==> !v.shares.contains_key(share.id)
            &&& r is Ok ==> after == (RegistryView {
                shares: v.shares.insert(share.id, share),
                ..v
            })
            &&& r is Err ==> r == Err::<(), DbError>(DbError::DuplicateShare) && after == v
        },
        folder_insertion(v, after, share, entries, r) ==> {
            &&& r is Ok <==> !v.shares.contains_key(share.id) && forall|i: int, j: int|
                0 <= i < j < entries.len() ==> (#[trigger] entries[i]).stored_name != (
                #[trigger] entries[j]).stored_name
            &&& r is Ok ==> after.shares == v.shares.insert(share.id, share) && after.entries.len()
                == v.entries.len() + entries.len()
            &&& r is Err ==> after == v && r == Err::<(), DbError>(
                if v.shares.contains_key(share.id) {
                    DbError::DuplicateShare
                } else {
                    DbError::DuplicateEntry
                },
            )
        },
{
}

/// What is recorded is put behind what was recorded before, and nothing else changes;
/// counting a download changes the count of its share and nothing else.
pub proof fn law_records_are_kept_in_order(
    v: RegistryView,
    e: EventView,
    id: Seq<char>,
    ip: IpAddr,
    ts: i64,
)
    ensures
        v.with_event(e) == (RegistryView { events: v.events.push(e), ..v }),
        v.with_failure(id, ip, ts) == (RegistryView {
            failures: v.failures.push(FailureView { share_id: id, ip: ip, timestamp: ts }),
            ..v
        }),
        !v.shares.contains_key(id) ==> v.after_count(id) == v,
        v.shares.contains_key(id) && v.shares[id].id == id ==> v.after_count(id) == (RegistryView {
            shares: v.shares.insert(
                id,
                ShareView {
                    download_count: (v.shares[id].download_count + 1) as i64,
                    ..v.shares[id]
                },
            ),
            ..v
        }),
{
}

} // verus!
