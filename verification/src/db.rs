//! The share registry: which shares exist, what the files of a folder share
//! are, and what was recorded of downloads and of failed unlock attempts.
//!
//! This is the only place that maps a public share id to a place in the file
//! system. No function here takes a path from the network: paths come from the
//! local side alone, with the share that is put in.

use crate::net::IpAddr;
use crate::table::{place_of, Table};
use crate::text::same_text;
use vstd::prelude::*;

verus! {

/// A share as it is registered.
#[derive(Debug)]
pub struct Share {
    pub id: String,
    pub display_name: String,
    /// Where the file or the folder lies. Not for a client to see.
    pub file_path: String,
    pub size_bytes: i64,
    pub is_folder: bool,
    pub created_at: i64,
    pub expires_at: Option<i64>,
    pub max_downloads: Option<i64>,
    pub download_count: i64,
    pub password_hash: Option<String>,
    /// `active` or `revoked`.
    pub status: String,
}

/// What the dashboard is told of a share: everything but the path and the
/// password hash.
#[derive(Debug)]
pub struct ShareSummary {
    pub id: String,
    pub display_name: String,
    pub size_bytes: i64,
    pub is_folder: bool,
    pub created_at: i64,
    pub expires_at: Option<i64>,
    pub max_downloads: Option<i64>,
    pub download_count: i64,
    pub has_password: bool,
    pub status: String,
}

/// One file of a folder share: the name it is stored under, the name it has in
/// the archive, its size.
#[derive(Debug)]
pub struct ShareEntry {
    pub stored_name: String,
    pub display_name: String,
    pub size_bytes: i64,
}

/// One download that took place, or was broken off.
#[derive(Debug)]
pub struct DownloadEvent {
    pub share_id: String,
    pub ip: IpAddr,
    pub timestamp: i64,
    pub bytes_transferred: i64,
    pub completed: bool,
}

/// One attempt to unlock a share with a wrong password.
#[derive(Debug)]
pub struct FailedAuth {
    pub share_id: String,
    pub ip: IpAddr,
    pub timestamp: i64,
}

/// Why a row could not be put in.
#[derive(Debug, Clone, Copy, PartialEq, Eq, Structural)]
pub enum DbError {
    /// There is a share with this id already.
    DuplicateShare,
    /// Two files of one folder share have the same stored name.
    DuplicateEntry,
    /// The table has used up its row numbers.
    Full,
}

// ---------------------------------------------------------------------------
// What the rows stand for

#[verifier::ext_equal]
pub struct ShareView {
    pub id: Seq<char>,
    pub display_name: Seq<char>,
    pub file_path: Seq<char>,
    pub size_bytes: i64,
    pub is_folder: bool,
    pub created_at: i64,
    pub expires_at: Option<i64>,
    pub max_downloads: Option<i64>,
    pub download_count: i64,
    pub password_hash: Option<Seq<char>>,
    pub status: Seq<char>,
}

#[verifier::ext_equal]
pub struct SummaryView {
    pub id: Seq<char>,
    pub display_name: Seq<char>,
    pub size_bytes: i64,
    pub is_folder: bool,
    pub created_at: i64,
    pub expires_at: Option<i64>,
    pub max_downloads: Option<i64>,
    pub download_count: i64,
    pub has_password: bool,
    pub status: Seq<char>,
}

#[verifier::ext_equal]
pub struct EntryView {
    pub stored_name: Seq<char>,
    pub display_name: Seq<char>,
    pub size_bytes: i64,
}

/// A file of a folder share, with the share that it belongs to.
#[verifier::ext_equal]
pub struct EntryRowView {
    pub share_id: Seq<char>,
    pub entry: EntryView,
}

#[verifier::ext_equal]
pub struct EventView {
    pub share_id: Seq<char>,
    pub ip: IpAddr,
    pub timestamp: i64,
    pub bytes_transferred: i64,
    pub completed: bool,
}

#[verifier::ext_equal]
pub struct FailureView {
    pub share_id: Seq<char>,
    pub ip: IpAddr,
    pub timestamp: i64,
}

/// The characters of a text that may be missing.
pub open spec fn opt_view(s: Option<String>) -> Option<Seq<char>> {
    match s {
        Some(t) => Some(t@),
        None => None,
    }
}

/// A change of a text that may be missing.
pub open spec fn change_view(change: Option<Option<String>>) -> Option<Option<Seq<char>>> {
    match change {
        Some(s) => Some(opt_view(s)),
        None => None,
    }
}

impl View for Share {
    type V = ShareView;

    open spec fn view(&self) -> ShareView {
        ShareView {
            id: self.id@,
            display_name: self.display_name@,
            file_path: self.file_path@,
            size_bytes: self.size_bytes,
            is_folder: self.is_folder,
            created_at: self.created_at,
            expires_at: self.expires_at,
            max_downloads: self.max_downloads,
            download_count: self.download_count,
            password_hash: opt_view(self.password_hash),
            status: self.status@,
        }
    }
}

impl View for ShareSummary {
    type V = SummaryView;

    open spec fn view(&self) -> SummaryView {
        SummaryView {
            id: self.id@,
            display_name: self.display_name@,
            size_bytes: self.size_bytes,
            is_folder: self.is_folder,
            created_at: self.created_at,
            expires_at: self.expires_at,
            max_downloads: self.max_downloads,
            download_count: self.download_count,
            has_password: self.has_password,
            status: self.status@,
        }
    }
}

impl View for ShareEntry {
    type V = EntryView;

    open spec fn view(&self) -> EntryView {
        EntryView {
            stored_name: self.stored_name@,
            display_name: self.display_name@,
            size_bytes: self.size_bytes,
        }
    }
}

impl View for DownloadEvent {
    type V = EventView;

    open spec fn view(&self) -> EventView {
        EventView {
            share_id: self.share_id@,
            ip: self.ip,
            timestamp: self.timestamp,
            bytes_transferred: self.bytes_transferred,
            completed: self.completed,
        }
    }
}

impl View for FailedAuth {
    type V = FailureView;

    open spec fn view(&self) -> FailureView {
        FailureView { share_id: self.share_id@, ip: self.ip, timestamp: self.timestamp }
    }
}

pub open spec fn share_views(v: Seq<Share>) -> Seq<ShareView> {
    v.map_values(|s: Share| s@)
}

pub open spec fn entry_views(v: Seq<ShareEntry>) -> Seq<EntryView> {
    v.map_values(|e: ShareEntry| e@)
}

impl ShareView {
    pub open spec fn active(self) -> bool {
        self.status == "active"@
    }

    /// The time of expiry has come.
    pub open spec fn expired(self, now: i64) -> bool {
        self.expires_at matches Some(at) && now >= at
    }

    /// The download limit is used up.
    pub open spec fn exhausted(self) -> bool {
        self.max_downloads matches Some(max) && self.download_count >= max
    }

    /// One more download may start.
    pub open spec fn claimable(self, now: i64) -> bool {
        self.active() && !self.expired(now) && !self.exhausted()
    }

    pub open spec fn counted_once_more(self) -> ShareView {
        ShareView { download_count: (self.download_count + 1) as i64, ..self }
    }

    pub open spec fn revoked(self) -> ShareView {
        ShareView { status: "revoked"@, ..self }
    }

    pub open spec fn summary(self) -> SummaryView {
        SummaryView {
            id: self.id,
            display_name: self.display_name,
            size_bytes: self.size_bytes,
            is_folder: self.is_folder,
            created_at: self.created_at,
            expires_at: self.expires_at,
            max_downloads: self.max_downloads,
            download_count: self.download_count,
            has_password: self.password_hash is Some,
            status: self.status,
        }
    }
}

impl Clone for Share {
    fn clone(&self) -> (r: Self)
        ensures
            r@ == self@,
    {
        Share {
            id: self.id.clone(),
            display_name: self.display_name.clone(),
            file_path: self.file_path.clone(),
            size_bytes: self.size_bytes,
            is_folder: self.is_folder,
            created_at: self.created_at,
            expires_at: self.expires_at,
            max_downloads: self.max_downloads,
            download_count: self.download_count,
            password_hash: match &self.password_hash {
                Some(hash) => Some(hash.clone()),
                None => None,
            },
            status: self.status.clone(),
        }
    }
}

impl Share {
    pub fn is_active(&self) -> (r: bool)
        ensures
            r == self@.active(),
    {
        same_text(self.status.as_str(), "active")
    }

    pub fn has_expired(&self, now: i64) -> (r: bool)
        ensures
            r == self@.expired(now),
    {
        match self.expires_at {
            Some(at) => now >= at,
            None => false,
        }
    }

    pub fn is_exhausted(&self) -> (r: bool)
        ensures
            r == self@.exhausted(),
    {
        match self.max_downloads {
            Some(max) => self.download_count >= max,
            None => false,
        }
    }
}

impl From<&Share> for ShareSummary {
    fn from(s: &Share) -> (r: Self) {
        ShareSummary {
            id: s.id.clone(),
            display_name: s.display_name.clone(),
            size_bytes: s.size_bytes,
            is_folder: s.is_folder,
            created_at: s.created_at,
            expires_at: s.expires_at,
            max_downloads: s.max_downloads,
            download_count: s.download_count,
            has_password: s.password_hash.is_some(),
            status: s.status.clone(),
        }
    }
}

impl vstd::std_specs::convert::FromSpecImpl<&Share> for ShareSummary {
    open spec fn obeys_from_spec() -> bool {
        true
    }

    open spec fn from_spec(s: &Share) -> ShareSummary {
        ShareSummary {
            id: s.id,
            display_name: s.display_name,
            size_bytes: s.size_bytes,
            is_folder: s.is_folder,
            created_at: s.created_at,
            expires_at: s.expires_at,
            max_downloads: s.max_downloads,
            download_count: s.download_count,
            has_password: s.password_hash is Some,
            status: s.status,
        }
    }
}

impl Clone for ShareSummary {
    fn clone(&self) -> (r: Self)
        ensures
            r@ == self@,
    {
        ShareSummary {
            id: self.id.clone(),
            display_name: self.display_name.clone(),
            size_bytes: self.size_bytes,
            is_folder: self.is_folder,
            created_at: self.created_at,
            expires_at: self.expires_at,
            max_downloads: self.max_downloads,
            download_count: self.download_count,
            has_password: self.has_password,
            status: self.status.clone(),
        }
    }
}

impl Clone for ShareEntry {
    fn clone(&self) -> (r: Self)
        ensures
            r@ == self@,
    {
        ShareEntry {
            stored_name: self.stored_name.clone(),
            display_name: self.display_name.clone(),
            size_bytes: self.size_bytes,
        }
    }
}

// ---------------------------------------------------------------------------
// The registry

/// A file of a folder share, with the share that it belongs to.
#[derive(Debug)]
pub struct EntryRow {
    pub share_id: String,
    pub entry: ShareEntry,
}

impl View for EntryRow {
    type V = EntryRowView;

    open spec fn view(&self) -> EntryRowView {
        EntryRowView { share_id: self.share_id@, entry: self.entry@ }
    }
}

/// The four tables. Entries, events and failures stand in the order in which
/// they were put in.
pub struct Registry {
    shares: Table<String, Share>,
    entries: Vec<EntryRow>,
    events: Vec<DownloadEvent>,
    failures: Vec<FailedAuth>,
}

#[verifier::ext_equal]
pub struct RegistryView {
    pub shares: Map<Seq<char>, ShareView>,
    pub entries: Seq<EntryRowView>,
    pub events: Seq<EventView>,
    pub failures: Seq<FailureView>,
}

impl View for Registry {
    type V = RegistryView;

    closed spec fn view(&self) -> RegistryView {
        RegistryView {
            shares: self.shares@,
            entries: self.entries@.map_values(|r: EntryRow| r@),
            events: self.events@.map_values(|e: DownloadEvent| e@),
            failures: self.failures@.map_values(|f: FailedAuth| f@),
        }
    }
}

/// No two files of one share have the same stored name.
pub open spec fn distinct_entries(rows: Seq<EntryRowView>) -> bool {
    forall|i: int, j: int|
        0 <= i < j < rows.len() && (#[trigger] rows[i]).share_id == (#[trigger] rows[j]).share_id
            ==> rows[i].entry.stored_name != rows[j].entry.stored_name
}

/// No two of the entries have the same stored name.
pub open spec fn distinct_names(entries: Seq<EntryView>) -> bool {
    forall|i: int, j: int|
        0 <= i < j < entries.len() ==> (#[trigger] entries[i]).stored_name != (
        #[trigger] entries[j]).stored_name
}

/// The entries as rows of one share.
pub open spec fn rows_of(id: Seq<char>, entries: Seq<EntryView>) -> Seq<EntryRowView> {
    entries.map_values(|e: EntryView| EntryRowView { share_id: id, entry: e })
}

/// The files of one share, in the order in which they were put in.
pub open spec fn entries_of(rows: Seq<EntryRowView>, id: Seq<char>) -> Seq<EntryView> {
    rows.filter(|r: EntryRowView| r.share_id == id).map_values(|r: EntryRowView| r.entry)
}

/// How many attempts on a share from an address failed at `since` or later.
pub open spec fn failures_since(
    failures: Seq<FailureView>,
    id: Seq<char>,
    ip: IpAddr,
    since: i64,
) -> nat {
    failures.filter(
        |f: FailureView| f.share_id == id && f.ip == ip && f.timestamp >= since,
    ).len()
}

impl RegistryView {
    pub open spec fn empty() -> RegistryView {
        RegistryView {
            shares: Map::empty(),
            entries: Seq::empty(),
            events: Seq::empty(),
            failures: Seq::empty(),
        }
    }

    /// What holds of the tables at all times: each share stands under its own
    /// id, each entry belongs to a share that is there, no two files of a share
    /// have the same stored name, and the row numbers have not run out.
    pub open spec fn valid(self) -> bool {
        &&& forall|id: Seq<char>| #[trigger]
            self.shares.contains_key(id) ==> self.shares[id].id == id
        &&& distinct_entries(self.entries)
        &&& forall|i: int|
            0 <= i < self.entries.len() ==> self.shares.contains_key(
                (#[trigger] self.entries[i]).share_id,
            )
        &&& self.events.len() <= i64::MAX
        &&& self.failures.len() <= i64::MAX
    }

    /// With this share under its id.
    pub open spec fn put(self, s: ShareView) -> RegistryView {
        RegistryView { shares: self.shares.insert(s.id, s), ..self }
    }

    /// With this share and its files.
    pub open spec fn put_folder(self, s: ShareView, entries: Seq<EntryView>) -> RegistryView {
        RegistryView {
            shares: self.shares.insert(s.id, s),
            entries: self.entries + rows_of(s.id, entries),
            ..self
        }
    }

    /// Whether a download of this share can be claimed now.
    pub open spec fn claimable(self, id: Seq<char>, now: i64) -> bool {
        self.shares.contains_key(id) && self.shares[id].claimable(now)
    }

    /// After a download was asked for: counted, where it can be claimed.
    pub open spec fn after_claim(self, id: Seq<char>, now: i64) -> RegistryView {
        if self.claimable(id, now) {
            self.put(self.shares[id].counted_once_more())
        } else {
            self
        }
    }

    /// After the share was revoked, if it is there.
    pub open spec fn after_revoke(self, id: Seq<char>) -> RegistryView {
        if self.shares.contains_key(id) {
            self.put(self.shares[id].revoked())
        } else {
            self
        }
    }

    /// After the share and its files were taken out.
    pub open spec fn after_delete(self, id: Seq<char>) -> RegistryView {
        RegistryView {
            shares: self.shares.remove(id),
            entries: self.entries.filter(|r: EntryRowView| r.share_id != id),
            ..self
        }
    }

    /// After the given settings were changed, if the share is there.
    pub open spec fn after_update(
        self,
        id: Seq<char>,
        expires_at: Option<Option<i64>>,
        max_downloads: Option<Option<i64>>,
        password_hash: Option<Option<Seq<char>>>,
    ) -> RegistryView {
        if self.shares.contains_key(id) {
            let s = self.shares[id];
            self.put(
                ShareView {
                    expires_at: match expires_at {
                        Some(v) => v,
                        None => s.expires_at,
                    },
                    max_downloads: match max_downloads {
                        Some(v) => v,
                        None => s.max_downloads,
                    },
                    password_hash: match password_hash {
                        Some(v) => v,
                        None => s.password_hash,
                    },
                    ..s
                },
            )
        } else {
            self
        }
    }

    /// With one more failed attempt.
    pub open spec fn with_failure(self, id: Seq<char>, ip: IpAddr, ts: i64) -> RegistryView {
        RegistryView {
            failures: self.failures.push(FailureView { share_id: id, ip: ip, timestamp: ts }),
            ..self
        }
    }

    /// With one more download recorded.
    pub open spec fn with_event(self, e: EventView) -> RegistryView {
        RegistryView { events: self.events.push(e), ..self }
    }

    /// After a download of this share was counted, if the share is there.
    pub open spec fn after_count(self, id: Seq<char>) -> RegistryView {
        if self.shares.contains_key(id) {
            self.put(self.shares[id].counted_once_more())
        } else {
            self
        }
    }

    /// Whether a share is due to be revoked because its time is over.
    pub open spec fn overdue(self, id: Seq<char>, now: i64) -> bool {
        self.shares.contains_key(id) && self.shares[id].active() && self.shares[id].expired(now)
    }

    /// After every active share whose time is over was revoked.
    pub open spec fn after_expiry(self, now: i64) -> RegistryView {
        RegistryView {
            shares: Map::new(
                |id: Seq<char>| self.shares.contains_key(id),
                |id: Seq<char>|
                    if self.overdue(id, now) {
                        self.shares[id].revoked()
                    } else {
                        self.shares[id]
                    },
            ),
            ..self
        }
    }
}

impl Registry {
    /// The tables hold what [`RegistryView::valid`] says.
    pub closed spec fn wf(&self) -> bool {
        self.shares.wf() && self@.valid()
    }

    /// A registry that is fit for use is a valid one.
    pub proof fn lemma_valid(&self)
        requires
            self.wf(),
        ensures
            self@.valid(),
    {
    }

    /// Four empty tables.
    pub fn new() -> (r: Registry)
        ensures
            r.wf(),
            r@ == RegistryView::empty(),
    {
        let r = Registry {
            shares: Table::new(),
            entries: Vec::new(),
            events: Vec::new(),
            failures: Vec::new(),
        };
        assert(r@ =~= RegistryView::empty());
        r
    }
}

/// What registering a share did.
pub open spec fn insertion(
    before: RegistryView,
    after: RegistryView,
    s: ShareView,
    r: Result<(), DbError>,
) -> bool {
    if before.shares.contains_key(s.id) {
        r == Err::<(), DbError>(DbError::DuplicateShare) && after == before
    } else {
        r is Ok && after == before.put(s)
    }
}

/// What registering a folder share with its files did.
pub open spec fn folder_insertion(
    before: RegistryView,
    after: RegistryView,
    s: ShareView,
    entries: Seq<EntryView>,
    r: Result<(), DbError>,
) -> bool {
    if before.shares.contains_key(s.id) {
        r == Err::<(), DbError>(DbError::DuplicateShare) && after == before
    } else if !distinct_names(entries) {
        r == Err::<(), DbError>(DbError::DuplicateEntry) && after == before
    } else {
        r is Ok && after == before.put_folder(s, entries)
    }
}

/// Registers a share.
pub fn insert_share(db: &mut Registry, s: &Share) -> (r: Result<(), DbError>)
    requires
        old(db).wf(),
    ensures
        final(db).wf(),
        match r {
            Ok(_) => !old(db)@.shares.contains_key(s@.id) && final(db)@ == old(db)@.put(s@),
            Err(e) => e == DbError::DuplicateShare && old(db)@.shares.contains_key(s@.id)
                && final(db)@ == old(db)@,
        },
        insertion(old(db)@, final(db)@, s@, r),
{
    if db.shares.position(&s.id).is_some() {
        return Err(DbError::DuplicateShare);
    }
    db.shares.push(s.id.clone(), s.clone());
    assert(db@ =~= old(db)@.put(s@));
    Ok(())
}

fn names_are_distinct(entries: &[ShareEntry]) -> (r: bool)
    ensures
        r == distinct_names(entry_views(entries@)),
{
    let n: usize = entries.len();
    let ghost views = entry_views(entries@);
    for j in 0..n
        invariant
            n == entries@.len(),
            views == entry_views(entries@),
            forall|a: int, b: int|
                0 <= a < b < j ==> (#[trigger] views[a]).stored_name != (
                #[trigger] views[b]).stored_name,
    {
        for i in 0..j
            invariant
                j < n,
                n == entries@.len(),
                views == entry_views(entries@),
                forall|a: int|
                    0 <= a < i ==> (#[trigger] views[a]).stored_name != views[j as int].stored_name,
        {
            if entries[i].stored_name == entries[j].stored_name {
                assert(views[i as int].stored_name == views[j as int].stored_name);
                return false;
            }
            assert(views[i as int].stored_name != views[j as int].stored_name);
        }
    }
    true
}

/// Registers a folder share with its files: all of them, or nothing at all.
pub fn insert_folder_share(db: &mut Registry, share: &Share, entries: &[ShareEntry]) -> (r: Result<
    (),
    DbError,
>)
    requires
        old(db).wf(),
    ensures
        final(db).wf(),
        match r {
            Ok(_) => !old(db)@.shares.contains_key(share@.id) && distinct_names(
                entry_views(entries@),
            ) && final(db)@ == old(db)@.put_folder(share@, entry_views(entries@)),
            Err(DbError::DuplicateShare) => old(db)@.shares.contains_key(share@.id) && final(db)@
                == old(db)@,
            Err(DbError::DuplicateEntry) => !old(db)@.shares.contains_key(share@.id)
                && !distinct_names(entry_views(entries@)) && final(db)@ == old(db)@,
            Err(DbError::Full) => false,
        },
        folder_insertion(old(db)@, final(db)@, share@, entry_views(entries@), r),
{
    if db.shares.position(&share.id).is_some() {
        return Err(DbError::DuplicateShare);
    }
    if !names_are_distinct(entries) {
        return Err(DbError::DuplicateEntry);
    }
    let n: usize = entries.len();
    let ghost views = entry_views(entries@);
    db.shares.push(share.id.clone(), share.clone());
    let ghost before = old(db)@.entries;
    let ghost id = share@.id;
    for i in 0..n
        invariant
            n == entries@.len(),
            views == entry_views(entries@),
            id == share@.id,
            db.shares.wf(),
            db@.shares == old(db)@.shares.insert(id, share@),
            db@.events == old(db)@.events,
            db@.failures == old(db)@.failures,
            db@.entries == before + rows_of(id, views.take(i as int)),
    {
        let ghost so_far = db@.entries;
        db.entries.push(EntryRow { share_id: share.id.clone(), entry: entries[i].clone() });
        assert(views[i as int] == entries@[i as int]@);
        assert(db@.entries =~= so_far.push(EntryRowView { share_id: id, entry: views[i as int] }));
        assert(rows_of(id, views.take(i + 1)) =~= rows_of(id, views.take(i as int)).push(
            EntryRowView { share_id: id, entry: views[i as int] },
        ));
    }
    proof {
        assert(views.take(n as int) =~= views);
        assert(db@ =~= old(db)@.put_folder(share@, views));
        let rows = db@.entries;
        assert forall|i: int| 0 <= i < rows.len() implies db@.shares.contains_key(
            (#[trigger] rows[i]).share_id,
        ) by {
            if i < before.len() {
                assert(rows[i] == before[i]);
            }
        }
        assert forall|i: int, j: int|
            0 <= i < j < rows.len() && (#[trigger] rows[i]).share_id == (
            #[trigger] rows[j]).share_id implies rows[i].entry.stored_name
            != rows[j].entry.stored_name by {
            if j < before.len() {
                assert(rows[i] == before[i] && rows[j] == before[j]);
            } else if i < before.len() {
                assert(rows[i] == before[i]);
            } else {
                assert(rows[i].entry == views[i - before.len()]);
                assert(rows[j].entry == views[j - before.len()]);
            }
        }
    }
    Ok(())
}

/// The files of a folder share, in the order in which they were put in.
pub fn list_share_entries(db: &Registry, share_id: &str) -> (r: Vec<ShareEntry>)
    ensures
        entry_views(r@) == entries_of(db@.entries, share_id@),
{
    let n: usize = db.entries.len();
    let mut out: Vec<ShareEntry> = Vec::new();
    let ghost mine = |r: EntryRowView| r.share_id == share_id@;
    let ghost rows = db@.entries;
    assert(rows.take(0) =~= Seq::<EntryRowView>::empty());
    for i in 0..n
        invariant
            n == db.entries@.len(),
            rows == db@.entries,
            mine == (|r: EntryRowView| r.share_id == share_id@),
            entry_views(out@) == rows.take(i as int).filter(mine).map_values(
                |r: EntryRowView| r.entry,
            ),
    {
        reveal_with_fuel(Seq::filter, 2);
        assert(rows.take(i + 1).drop_last() =~= rows.take(i as int));
        assert(rows[i as int] == db.entries@[i as int]@);
        let ghost before = entry_views(out@);
        if same_text(db.entries[i].share_id.as_str(), share_id) {
            out.push(db.entries[i].entry.clone());
            assert(entry_views(out@) =~= before.push(rows[i as int].entry));
            assert(rows.take(i + 1).filter(mine) == rows.take(i as int).filter(mine).push(
                rows[i as int],
            ));
            assert(rows.take(i + 1).filter(mine).map_values(|r: EntryRowView| r.entry)
                =~= before.push(rows[i as int].entry));
        }
    }
    assert(rows.take(n as int) =~= rows);
    out
}

/// The share with exactly this id, if there is one.
pub fn get_share(db: &Registry, id: &str) -> (r: Option<Share>)
    requires
        db.wf(),
    ensures
        match r {
            Some(s) => db@.shares.contains_key(id@) && s@ == db@.shares[id@],
            None => !db@.shares.contains_key(id@),
        },
{
    match db.shares.get(&id.to_string()) {
        Some(s) => Some(s.clone()),
        None => None,
    }
}

/// The shares, in some order and each of them once.
pub open spec fn lists_all(list: Seq<ShareView>, shares: Map<Seq<char>, ShareView>) -> bool {
    &&& forall|i: int|
        0 <= i < list.len() ==> shares.contains_key((#[trigger] list[i]).id)
            && shares[list[i].id] == list[i]
    &&& forall|i: int, j: int|
        0 <= i < j < list.len() ==> (#[trigger] list[i]).id != (#[trigger] list[j]).id
    &&& forall|id: Seq<char>| #[trigger]
        shares.contains_key(id) ==> exists|i: int|
            0 <= i < list.len() && (#[trigger] list[i]).id == id
}

/// The newest first.
pub open spec fn newest_first(list: Seq<ShareView>) -> bool {
    forall|i: int, j: int|
        0 <= i < j < list.len() ==> (#[trigger] list[i]).created_at >= (
        #[trigger] list[j]).created_at
}

/// All shares, the newest first.
pub fn list_shares(db: &Registry) -> (r: Vec<Share>)
    requires
        db.wf(),
    ensures
        lists_all(share_views(r@), db@.shares),
        newest_first(share_views(r@)),
{
    let n: usize = db.shares.len();
    let mut out: Vec<Share> = Vec::new();
    let ghost pairs = db.shares.pairs();
    // from[k] is the place in the table of the share that stands at k
    let ghost mut from: Seq<int> = Seq::empty();
    proof {
        db.shares.lemma_rows();
    }
    for i in 0..n
        invariant
            n == pairs.len(),
            pairs == db.shares.pairs(),
            from.len() == out@.len() == i,
            forall|k: int| 0 <= k < i ==> 0 <= #[trigger] from[k] < i,
            forall|k: int| 0 <= k < i ==> share_views(out@)[k] == pairs[#[trigger] from[k]].1,
            forall|a: int, b: int| 0 <= a < b < i ==> #[trigger] from[a] != #[trigger] from[b],
            forall|j: int| 0 <= j < i ==> from.contains(j),
            newest_first(share_views(out@)),
    {
        let share = db.shares.row_at(i).clone();
        let mut at: usize = 0;
        let ghost sorted = share_views(out@);
        while at < out.len() && out[at].created_at >= share.created_at
            invariant
                at <= out@.len(),
                sorted == share_views(out@),
                forall|k: int| 0 <= k < at ==> (#[trigger] sorted[k]).created_at >= share.created_at,
            decreases out@.len() - at,
        {
            assert(sorted[at as int] == out@[at as int]@);
            at = at + 1;
        }
        let ghost s = share@;
        proof {
            if at < out@.len() {
                assert(sorted[at as int] == out@[at as int]@);
                assert(sorted[at as int].created_at < s.created_at);
            }
        }
        out.insert(at, share);
        proof {
            let now = share_views(out@);
            assert(now =~= sorted.insert(at as int, s));
            let before = from;
            from = before.insert(at as int, i as int);
            assert forall|k: int| 0 <= k < i + 1 implies 0 <= #[trigger] from[k] < i + 1
                && now[k] == pairs[from[k]].1 by {
                if k < at {
                    assert(from[k] == before[k] && now[k] == sorted[k]);
                } else if k > at {
                    assert(from[k] == before[k - 1] && now[k] == sorted[k - 1]);
                }
            }
            assert forall|a: int, b: int| 0 <= a < b < i + 1 implies #[trigger] from[a]
                != #[trigger] from[b] by {
                let x = if a < at { a } else { a - 1 };
                let y = if b < at { b } else { b - 1 };
                if a != at {
                    assert(from[a] == before[x]);
                }
                if b != at {
                    assert(from[b] == before[y]);
                }
            }
            assert forall|j: int| 0 <= j < i + 1 implies from.contains(j) by {
                if j == i {
                    assert(from[at as int] == j);
                } else {
                    let k = choose|k: int| 0 <= k < before.len() && before[k] == j;
                    assert(before.contains(j));
                    if k < at {
                        assert(from[k] == j);
                    } else {
                        assert(from[k + 1] == j);
                    }
                }
            }
            assert(newest_first(now)) by {
                assert forall|a: int, b: int| 0 <= a < b < now.len() implies (
                #[trigger] now[a]).created_at >= (#[trigger] now[b]).created_at by {
                    let x = if a < at { a } else { a - 1 };
                    let y = if b < at { b } else { b - 1 };
                    if a != at {
                        assert(now[a] == sorted[x]);
                    }
                    if b != at {
                        assert(now[b] == sorted[y]);
                    }
                    if a == at && at < sorted.len() && y > at {
                        assert(sorted[at as int].created_at >= sorted[y].created_at);
                    }
                }
            }
        }
    }
    proof {
        let list = share_views(out@);
        assert forall|i: int| 0 <= i < list.len() implies db@.shares.contains_key(
            (#[trigger] list[i]).id,
        ) && db@.shares[list[i].id] == list[i] by {
            let p = pairs[from[i]];
            assert(db@.shares.contains_key(p.0));
        }
        assert forall|i: int, j: int| 0 <= i < j < list.len() implies (#[trigger] list[i]).id != (
        #[trigger] list[j]).id by {
            let p = pairs[from[i]];
            let q = pairs[from[j]];
            assert(from[i] != from[j]);
            assert(db@.shares.contains_key(p.0) && db@.shares.contains_key(q.0));
        }
        assert forall|id: Seq<char>| #[trigger] db@.shares.contains_key(id) implies exists|i: int|
            0 <= i < list.len() && (#[trigger] list[i]).id == id by {
            let j = place_of(pairs, id);
            assert(from.contains(j));
            let k = choose|k: int| 0 <= k < from.len() && from[k] == j;
            assert(list[k].id == id);
        }
    }
    out
}


/// Puts a share in the place of the one with the same id.
fn replace_share(db: &mut Registry, at: usize, share: Share)
    requires
        old(db).wf(),
        at < old(db).shares.pairs().len(),
        old(db).shares.pairs()[at as int].0 == share@.id,
    ensures
        final(db).wf(),
        final(db)@ == old(db)@.put(share@),
        final(db).shares.pairs() == old(db).shares.pairs().update(at as int, (share@.id, share@)),
{
    proof {
        db.shares.lemma_rows();
        assert(db@.shares.contains_key(db.shares.pairs()[at as int].0));
    }
    db.shares.replace_at(at, share);
    assert(db@ =~= old(db)@.put(share@));
}

/// Counts one more download of a share.
pub fn increment_download_count(db: &mut Registry, id: &str)
    requires
        old(db).wf(),
        old(db)@.shares.contains_key(id@) ==> old(db)@.shares[id@].download_count < i64::MAX,
    ensures
        final(db).wf(),
        final(db)@ == if old(db)@.shares.contains_key(id@) {
            old(db)@.put(old(db)@.shares[id@].counted_once_more())
        } else {
            old(db)@
        },
        final(db)@ == old(db)@.after_count(id@),
{
    if let Some(at) = db.shares.position(&id.to_string()) {
        let mut share = db.shares.row_at(at).clone();
        share.download_count = share.download_count + 1;
        assert(share@ =~= db@.shares[id@].counted_once_more());
        replace_share(db, at, share);
    }
}

/// Checks every condition on a download once more and counts it, in one step:
/// the limit cannot be overrun by requests that were all let in before.
pub fn claim_download(db: &mut Registry, id: &str, now: i64) -> (r: bool)
    requires
        old(db).wf(),
        old(db)@.claimable(id@, now) ==> old(db)@.shares[id@].download_count < i64::MAX,
    ensures
        final(db).wf(),
        r == old(db)@.claimable(id@, now),
        final(db)@ == old(db)@.after_claim(id@, now),
{
    match db.shares.position(&id.to_string()) {
        Some(at) => {
            let mut share = db.shares.row_at(at).clone();
            if share.is_active() && !share.has_expired(now) && !share.is_exhausted() {
                share.download_count = share.download_count + 1;
                assert(share@ =~= db@.shares[id@].counted_once_more());
                replace_share(db, at, share);
                true
            } else {
                false
            }
        },
        None => false,
    }
}

/// Revokes a share, and says whether there is one with this id.
pub fn revoke_share(db: &mut Registry, id: &str) -> (r: bool)
    requires
        old(db).wf(),
    ensures
        final(db).wf(),
        r == old(db)@.shares.contains_key(id@),
        final(db)@ == old(db)@.after_revoke(id@),
{
    match db.shares.position(&id.to_string()) {
        Some(at) => {
            let mut share = db.shares.row_at(at).clone();
            share.status = "revoked".to_string();
            assert(share@ =~= db@.shares[id@].revoked());
            replace_share(db, at, share);
            true
        },
        None => false,
    }
}

/// What is left of the entries by a test are entries that pass it, and their
/// stored names stay distinct.
proof fn lemma_filter_keeps_entries(rows: Seq<EntryRowView>, p: spec_fn(EntryRowView) -> bool)
    requires
        distinct_entries(rows),
    ensures
        distinct_entries(rows.filter(p)),
        forall|i: int|
            0 <= i < rows.filter(p).len() ==> p(#[trigger] rows.filter(p)[i]) && rows.contains(
                rows.filter(p)[i],
            ),
    decreases rows.len(),
{
    reveal(Seq::filter);
    if rows.len() > 0 {
        let init = rows.drop_last();
        let kept = init.filter(p);
        assert(distinct_entries(init)) by {
            assert forall|i: int, j: int|
                0 <= i < j < init.len() && (#[trigger] init[i]).share_id == (
                #[trigger] init[j]).share_id implies init[i].entry.stored_name
                != init[j].entry.stored_name by {
                assert(init[i] == rows[i] && init[j] == rows[j]);
            }
        }
        lemma_filter_keeps_entries(init, p);
        assert forall|i: int| 0 <= i < kept.len() implies rows.contains(#[trigger] kept[i]) by {
            assert(init.contains(kept[i]));
            let k = choose|k: int| 0 <= k < init.len() && init[k] == kept[i];
            assert(rows[k] == kept[i]);
        }
        if p(rows.last()) {
            let all = rows.filter(p);
            assert(all == kept.push(rows.last()));
            assert(rows[rows.len() - 1] == rows.last());
            assert forall|i: int| 0 <= i < all.len() implies p(#[trigger] all[i]) && rows.contains(
                all[i],
            ) by {
                if i < kept.len() {
                    assert(all[i] == kept[i]);
                }
            }
            assert forall|i: int, j: int|
                0 <= i < j < all.len() && (#[trigger] all[i]).share_id == (
                #[trigger] all[j]).share_id implies all[i].entry.stored_name
                != all[j].entry.stored_name by {
                assert(all[i] == kept[i]);
                if j < kept.len() {
                    assert(all[j] == kept[j]);
                } else {
                    assert(init.contains(kept[i]));
                    let k = choose|k: int| 0 <= k < init.len() && init[k] == kept[i];
                    assert(rows[k] == kept[i]);
                    assert(rows[rows.len() - 1] == all[j]);
                }
            }
        }
    }
}

/// Takes a share and its files out of the registry, and says whether there was
/// one with this id.
pub fn delete_share(db: &mut Registry, id: &str) -> (r: bool)
    requires
        old(db).wf(),
    ensures
        final(db).wf(),
        r == old(db)@.shares.contains_key(id@),
        final(db)@ == old(db)@.after_delete(id@),
{
    let n: usize = db.entries.len();
    let mut kept: Vec<EntryRow> = Vec::new();
    let ghost others = |r: EntryRowView| r.share_id != id@;
    let ghost rows = db@.entries;
    assert(rows.take(0) =~= Seq::<EntryRowView>::empty());
    for i in 0..n
        invariant
            n == db.entries@.len(),
            rows == db@.entries,
            others == (|r: EntryRowView| r.share_id != id@),
            kept@.map_values(|r: EntryRow| r@) == rows.take(i as int).filter(others),
    {
        reveal_with_fuel(Seq::filter, 2);
        assert(rows.take(i + 1).drop_last() =~= rows.take(i as int));
        assert(rows[i as int] == db.entries@[i as int]@);
        let ghost before = kept@.map_values(|r: EntryRow| r@);
        if !same_text(db.entries[i].share_id.as_str(), id) {
            kept.push(
                EntryRow {
                    share_id: db.entries[i].share_id.clone(),
                    entry: db.entries[i].entry.clone(),
                },
            );
            assert(kept@.map_values(|r: EntryRow| r@) =~= before.push(rows[i as int]));
        }
    }
    assert(rows.take(n as int) =~= rows);
    let found = db.shares.remove(&id.to_string());
    db.entries = kept;
    proof {
        assert(db@ =~= old(db)@.after_delete(id@));
        lemma_filter_keeps_entries(rows, others);
        let left = db@.entries;
        assert forall|i: int| 0 <= i < left.len() implies db@.shares.contains_key(
            (#[trigger] left[i]).share_id,
        ) by {
            assert(others(left[i]) && rows.contains(left[i]));
        }
    }
    found
}

/// Changes the settings that are given, and says whether any was. `Some(None)`
/// takes a setting away.
pub fn update_share_settings(
    db: &mut Registry,
    id: &str,
    expires_at: Option<Option<i64>>,
    max_downloads: Option<Option<i64>>,
    password_hash: Option<Option<String>>,
) -> (r: bool)
    requires
        old(db).wf(),
    ensures
        final(db).wf(),
        r == (expires_at is Some || max_downloads is Some || password_hash is Some),
        final(db)@ == old(db)@.after_update(
            id@,
            expires_at,
            max_downloads,
            change_view(password_hash),
        ),
{
    let updated = expires_at.is_some() || max_downloads.is_some() || password_hash.is_some();
    if let Some(at) = db.shares.position(&id.to_string()) {
        let mut share = db.shares.row_at(at).clone();
        if let Some(v) = expires_at {
            share.expires_at = v;
        }
        if let Some(v) = max_downloads {
            share.max_downloads = v;
        }
        if let Some(v) = password_hash {
            share.password_hash = v;
        }
        replace_share(db, at, share);
        assert(db@ =~= old(db)@.after_update(
            id@,
            expires_at,
            max_downloads,
            change_view(password_hash),
        ));
    }
    updated
}

/// Revokes every active share whose time is over, and returns them as they were
/// before. No file is touched.
pub fn delete_expired_shares(db: &mut Registry, now: i64) -> (r: Vec<Share>)
    requires
        old(db).wf(),
    ensures
        final(db).wf(),
        final(db)@ == old(db)@.after_expiry(now),
        lists_all(
            share_views(r@),
            Map::new(
                |id: Seq<char>| old(db)@.overdue(id, now),
                |id: Seq<char>| old(db)@.shares[id],
            ),
        ),
{
    let n: usize = db.shares.len();
    let mut expired: Vec<Share> = Vec::new();
    let ghost first = db@;
    let ghost pairs = db.shares.pairs();
    // from[k] is the place in the table of the share that stands at k
    let ghost mut from: Seq<int> = Seq::empty();
    proof {
        db.shares.lemma_rows();
    }
    for i in 0..n
        invariant
            first.valid(),
            n == pairs.len(),
            db.wf(),
            db@.entries == first.entries,
            db@.events == first.events,
            db@.failures == first.failures,
            db.shares.pairs().len() == n,
            forall|j: int|
                0 <= j < n ==> first.shares.contains_key((#[trigger] pairs[j]).0)
                    && first.shares[pairs[j].0] == pairs[j].1,
            forall|j: int|
                0 <= j < i ==> (#[trigger] db.shares.pairs()[j]) == (
                    pairs[j].0,
                    if first.overdue(pairs[j].0, now) {
                        pairs[j].1.revoked()
                    } else {
                        pairs[j].1
                    },
                ),
            forall|j: int| i <= j < n ==> #[trigger] db.shares.pairs()[j] == pairs[j],
            from.len() == expired@.len(),
            forall|k: int|
                0 <= k < from.len() ==> 0 <= #[trigger] from[k] < i && share_views(expired@)[k]
                    == pairs[from[k]].1 && first.overdue(pairs[from[k]].0, now),
            forall|a: int, b: int|
                0 <= a < b < from.len() ==> #[trigger] from[a] != #[trigger] from[b],
            forall|j: int|
                0 <= j < i && first.overdue((#[trigger] pairs[j]).0, now) ==> from.contains(j),
    {
        assert(db.shares.pairs()[i as int] == pairs[i as int]);
        let share = db.shares.row_at(i).clone();
        let ghost found = expired@;
        let ghost before = db.shares.pairs();
        let ghost places = from;
        assert(share@ == pairs[i as int].1);
        if share.is_active() && share.has_expired(now) {
            let mut revoked = share.clone();
            revoked.status = "revoked".to_string();
            assert(revoked@ =~= share@.revoked());
            replace_share(db, i, revoked);
            expired.push(share);
            proof {
                from = places.push(i as int);
                assert(from[places.len() as int] == i);
                assert(share_views(expired@) =~= share_views(found).push(share@));
                assert forall|j: int|
                    0 <= j < i + 1 && first.overdue(
                        (#[trigger] pairs[j]).0,
                        now,
                    ) implies from.contains(j) by {
                    if j < i {
                        let k = choose|k: int| 0 <= k < places.len() && places[k] == j;
                        assert(places.contains(j));
                        assert(from[k] == j);
                    }
                }
            }
        }
        assert forall|j: int| 0 <= j < i + 1 implies (#[trigger] db.shares.pairs()[j]) == (
            pairs[j].0,
            if first.overdue(pairs[j].0, now) {
                pairs[j].1.revoked()
            } else {
                pairs[j].1
            },
        ) by {
            if j < i {
                assert(db.shares.pairs()[j] == before[j]);
            }
        }
    }
    proof {
        db.shares.lemma_rows();
        old(db).shares.lemma_rows();
        let last = first.after_expiry(now).shares;
        let table = db.shares.pairs();
        assert forall|id: Seq<char>| db@.shares.contains_key(id) <==> last.contains_key(id) by {
            if db@.shares.contains_key(id) {
                let j = place_of(table, id);
                assert(table[j].0 == id);
                assert(pairs[j].0 == id);
            }
            if last.contains_key(id) {
                let j = place_of(pairs, id);
                assert(pairs[j].0 == id);
                assert(table[j].0 == id);
            }
        }
        assert forall|id: Seq<char>| db@.shares.contains_key(id) implies db@.shares[id]
            == last[id] by {
            let j = place_of(table, id);
            assert(table[j] == (id, db@.shares[id]));
            assert(pairs[j].0 == id);
        }
        assert(db@.shares =~= last);
        assert(db@ =~= first.after_expiry(now));
        let due = Map::new(|id: Seq<char>| first.overdue(id, now), |id: Seq<char>| first.shares[id]);
        let list = share_views(expired@);
        assert forall|i: int| 0 <= i < list.len() implies due.contains_key((#[trigger] list[i]).id)
            && due[list[i].id] == list[i] by {
            let p = pairs[from[i]];
            assert(first.shares.contains_key(p.0));
        }
        assert forall|i: int, j: int| 0 <= i < j < list.len() implies (#[trigger] list[i]).id != (
        #[trigger] list[j]).id by {
            let p = pairs[from[i]];
            let q = pairs[from[j]];
            assert(from[i] != from[j]);
            assert(first.shares.contains_key(p.0) && first.shares.contains_key(q.0));
        }
        assert forall|id: Seq<char>| #[trigger] due.contains_key(id) implies exists|i: int|
            0 <= i < list.len() && (#[trigger] list[i]).id == id by {
            assert(first.shares.contains_key(id));
            let j = place_of(pairs, id);
            assert(first.overdue(pairs[j].0, now));
            assert(from.contains(j));
            let k = choose|k: int| 0 <= k < from.len() && from[k] == j;
            assert(list[k] == pairs[from[k]].1);
            assert(list[k].id == id);
        }
    }
    expired
}

/// Records a download that took place, or was broken off.
pub fn record_download_event(
    db: &mut Registry,
    share_id: &str,
    ip: IpAddr,
    ts: i64,
    bytes: i64,
    completed: bool,
) -> (r: Result<(), DbError>)
    requires
        old(db).wf(),
    ensures
        final(db).wf(),
        match r {
            Ok(_) => old(db)@.events.len() < i64::MAX && final(db)@ == (RegistryView {
                events: old(db)@.events.push(
                    EventView {
                        share_id: share_id@,
                        ip: ip,
                        timestamp: ts,
                        bytes_transferred: bytes,
                        completed: completed,
                    },
                ),
                ..old(db)@
            }),
            Err(e) => e == DbError::Full && old(db)@.events.len() == i64::MAX && final(db)@ == old(db)@,
        },
        r is Ok ==> final(db)@ == old(db)@.with_event(
            EventView {
                share_id: share_id@,
                ip: ip,
                timestamp: ts,
                bytes_transferred: bytes,
                completed: completed,
            },
        ),
{
    if db.events.len() as u128 >= i64::MAX as u128 {
        return Err(DbError::Full);
    }
    let ghost before = db@.events;
    let event = DownloadEvent {
        share_id: share_id.to_string(),
        ip,
        timestamp: ts,
        bytes_transferred: bytes,
        completed,
    };
    let ghost row = event@;
    db.events.push(event);
    assert(db@.events =~= before.push(row));
    Ok(())
}

/// Records an attempt to unlock a share with a wrong password.
pub fn record_failed_auth(db: &mut Registry, share_id: &str, ip: IpAddr, ts: i64) -> (r: Result<
    (),
    DbError,
>)
    requires
        old(db).wf(),
    ensures
        final(db).wf(),
        match r {
            Ok(_) => old(db)@.failures.len() < i64::MAX && final(db)@ == old(db)@.with_failure(
                share_id@,
                ip,
                ts,
            ),
            Err(e) => e == DbError::Full && old(db)@.failures.len() == i64::MAX && final(db)@
                == old(db)@,
        },
{
    if db.failures.len() as u128 >= i64::MAX as u128 {
        return Err(DbError::Full);
    }
    let ghost before = db@.failures;
    let failure = FailedAuth { share_id: share_id.to_string(), ip, timestamp: ts };
    let ghost row = failure@;
    db.failures.push(failure);
    assert(db@.failures =~= before.push(row));
    assert(db@ =~= old(db)@.with_failure(share_id@, ip, ts));
    Ok(())
}

/// The failed attempts that are recorded, in the order in which they were made.
pub fn failed_auths(db: &Registry) -> (r: &Vec<FailedAuth>)
    ensures
        r@.map_values(|f: FailedAuth| f@) == db@.failures,
{
    &db.failures
}

/// How many attempts on a share from an address failed at `since` or later.
pub fn count_recent_failed_auth(db: &Registry, share_id: &str, ip: IpAddr, since: i64) -> (r: i64)
    requires
        db.wf(),
    ensures
        r == failures_since(db@.failures, share_id@, ip, since),
{
    let n: usize = db.failures.len();
    let mut count: i64 = 0;
    let ghost recent = |f: FailureView|
        f.share_id == share_id@ && f.ip == ip && f.timestamp >= since;
    let ghost rows = db@.failures;
    assert(rows.take(0) =~= Seq::<FailureView>::empty());
    for i in 0..n
        invariant
            n == db.failures@.len(),
            n <= i64::MAX,
            rows == db@.failures,
            recent == (|f: FailureView|
                f.share_id == share_id@ && f.ip == ip && f.timestamp >= since),
            count == rows.take(i as int).filter(recent).len(),
            count <= i,
    {
        reveal_with_fuel(Seq::filter, 2);
        assert(rows.take(i + 1).drop_last() =~= rows.take(i as int));
        assert(rows[i as int] == db.failures@[i as int]@);
        let f = &db.failures[i];
        if same_text(f.share_id.as_str(), share_id) && f.ip == ip && f.timestamp >= since {
            count = count + 1;
        }
    }
    assert(rows.take(n as int) =~= rows);
    count
}

} // verus!
