//! What values stand for: what is in their fields, field by field, and nothing else.

use crate::db::{
    change_view, entry_views, opt_view, share_views, DownloadEvent, FailedAuth, Share, ShareEntry,
    ShareSummary,
};
use crate::download::{
    info_outcome, opt_event, page_outcome, reply_outcome, share_outcome, unlock_outcome, Accounting,
    DownloadHead, DownloadReply, PageReply, ReplyView, ShareInfo, UnlockReply,
};
use crate::error::{AppError, ErrorView};
use crate::routes::{route_views, Route};
use crate::shares::{
    created_outcome, opt_entry, outcome, str_view, summary_views, CreatedShare, FolderUpload,
    Removal, RemovalView, ShareForm, Upload,
};
use crate::state::{DownloadSession, UnlockToken};
use crate::tunnel::Tunnel;
use vstd::prelude::*;

verus! {

/// A text that may be missing is there where it is, with its characters.
pub proof fn law_missing_texts(s: Option<String>, t: Option<&str>, change: Option<Option<String>>)
    ensures
        opt_view(s) is Some <==> s is Some,
        s is Some ==> opt_view(s)->0 == s->0@,
        str_view(t) is Some <==> t is Some,
        t is Some ==> str_view(t)->0 == t->0@,
        change_view(change) is Some <==> change is Some,
        change is Some ==> change_view(change)->0 == opt_view(change->0),
{
}

/// The rows of the registry.
pub proof fn law_rows_by_their_fields(
    s: Share,
    m: ShareSummary,
    e: ShareEntry,
    d: DownloadEvent,
    f: FailedAuth,
)
    ensures
        s@.id == s.id@ && s@.display_name == s.display_name@ && s@.file_path == s.file_path@,
        s@.size_bytes == s.size_bytes && s@.is_folder == s.is_folder && s@.created_at
            == s.created_at,
        s@.expires_at == s.expires_at && s@.max_downloads == s.max_downloads && s@.download_count
            == s.download_count,
        s@.password_hash is Some <==> s.password_hash is Some,
        s.password_hash is Some ==> s@.password_hash->0 == s.password_hash->0@,
        s@.status == s.status@,
        m@.id == m.id@ && m@.display_name == m.display_name@ && m@.size_bytes == m.size_bytes,
        m@.is_folder == m.is_folder && m@.created_at == m.created_at && m@.expires_at
            == m.expires_at,
        m@.max_downloads == m.max_downloads && m@.download_count == m.download_count,
        m@.has_password == m.has_password && m@.status == m.status@,
        e@.stored_name == e.stored_name@ && e@.display_name == e.display_name@ && e@.size_bytes
            == e.size_bytes,
        d@.share_id == d.share_id@ && d@.ip == d.ip && d@.timestamp == d.timestamp,
        d@.bytes_transferred == d.bytes_transferred && d@.completed == d.completed,
        f@.share_id == f.share_id@ && f@.ip == f.ip && f@.timestamp == f.timestamp,
{
}

/// A list stands for the list of what its items stand for, in their order.
pub proof fn law_lists_item_by_item(
    shares: Seq<Share>,
    entries: Seq<ShareEntry>,
    told: Seq<ShareSummary>,
    routes: Seq<Route>,
    entry: Option<ShareEntry>,
    i: int,
)
    ensures
        share_views(shares).len() == shares.len(),
        entry_views(entries).len() == entries.len(),
        summary_views(told).len() == told.len(),
        route_views(routes).len() == routes.len(),
        0 <= i < shares.len() ==> share_views(shares)[i] == shares[i]@,
        0 <= i < entries.len() ==> entry_views(entries)[i] == entries[i]@,
        0 <= i < told.len() ==> summary_views(told)[i] == told[i]@,
        0 <= i < routes.len() ==> route_views(routes)[i] == routes[i]@,
        0 <= i < routes.len() ==> routes[i]@.method == routes[i].method && routes[i]@.path
            == routes[i].path@ && routes[i]@.action == routes[i].action && routes[i]@.body_limit
            == routes[i].body_limit,
        opt_entry(entry) is Some <==> entry is Some,
        entry is Some ==> opt_entry(entry)->0 == entry->0@,
{
}

/// What is kept in memory.
pub proof fn law_memory_by_its_fields(
    t: UnlockToken,
    d: DownloadSession,
    a: Accounting,
    tunnel: Tunnel,
)
    ensures
        tunnel@.retry_delay == tunnel.retry_delay && tunnel@.connected == tunnel.connected,
        tunnel@.registered == tunnel.registered && tunnel@.pending_url == opt_view(
            tunnel.pending_url,
        ) && tunnel@.announcing == opt_view(tunnel.announcing),
        t@.share_id == t.share_id@ && t@.client_ip == t.client_ip && t@.expires_at == t.expires_at,
        d@.share_id == d.share_id@ && d@.client_ip == d.client_ip && d@.expires_at == d.expires_at
            && d@.counted == d.counted,
        a@.share_id == a.share_id@ && a@.client_ip == a.client_ip && a@.expected_bytes
            == a.expected_bytes && a@.transferred == a.transferred && a@.recorded == a.recorded,
{
}

/// The answers to recipients.
pub proof fn law_answers_by_their_fields(
    u: UnlockReply,
    h: DownloadHead,
    p: PageReply,
    i: ShareInfo,
    text: String,
    start: u64,
    len: u64,
)
    ensures
        u@.token == opt_view(u.token) && u@.cookie == opt_view(u.cookie),
        h@.status == h.status && h@.content_type == h.content_type@ && h@.content_length
            == h.content_length@,
        h@.content_disposition == h.content_disposition@ && h@.accept_ranges == h.accept_ranges@,
        h@.cache_control == h.cache_control@ && h@.content_range == opt_view(h.content_range),
        (DownloadReply::Empty { head: h })@ == (ReplyView::Empty { head: h@ }),
        (DownloadReply::Bytes { head: h, start, len })@ == (ReplyView::Bytes {
            head: h@,
            start: start,
            len: len,
        }),
        (DownloadReply::NotSatisfiable { content_range: text })@ == (ReplyView::NotSatisfiable {
            content_range: text@,
        }),
        p@.html == p.html@ && p@.cookie == p.cookie@ && p@.referrer_policy == p.referrer_policy@,
        p@.content_security_policy == p.content_security_policy@ && p@.content_type_options
            == p.content_type_options@,
        i@.id == i.id@ && i@.display_name == i.display_name@ && i@.size_bytes == i.size_bytes
            && i@.requires_password == i.requires_password,
{
}

/// The answers to the dashboard, and what it fills in.
pub proof fn law_forms_by_their_fields(
    c: CreatedShare,
    f: ShareForm,
    u: Upload,
    w: FolderUpload,
    path: String,
)
    ensures
        w@.share_id == w.share_id@ && w@.folder_name == w.folder_name@ && w@.entries == entry_views(
            w.entries@,
        ),
        w@.total_size == w.total_size && w@.current == opt_entry(w.current) && w@.form == w.form@,
        c@.id == c.id@ && c@.download_url == c.download_url@ && c@.public_download_url
            == c.public_download_url@,
        f@.expires == f.expires@ && f@.max_downloads == f.max_downloads@ && f@.password == opt_view(
            f.password,
        ),
        u@.share_id == u.share_id@ && u@.original_name == opt_view(u.original_name),
        u@.size_bytes == u.size_bytes && u@.received == u.received && u@.form == u.form@,
        Removal::Nothing@ == RemovalView::Nothing,
        Removal::File(path)@ == RemovalView::File(path@),
        Removal::Folder(path)@ == RemovalView::Folder(path@),
{
}

/// Errors, each with its own text.
pub proof fn law_errors_by_their_texts(text: String)
    ensures
        AppError::NotFound@ == ErrorView::NotFound,
        AppError::Forbidden@ == ErrorView::Forbidden,
        AppError::PasswordRequired@ == ErrorView::PasswordRequired,
        AppError::IncorrectPassword@ == ErrorView::IncorrectPassword,
        AppError::RateLimited@ == ErrorView::RateLimited,
        AppError::BadRequest(text)@ == ErrorView::BadRequest(text@),
        AppError::Internal(text)@ == ErrorView::Internal(text@),
{
}

/// A result is what was returned, or the error that was.
pub proof fn law_results_as_they_are(
    e: AppError,
    n: Option<i64>,
    s: Share,
    u: UnlockReply,
    d: DownloadReply,
    p: PageReply,
    i: ShareInfo,
    c: CreatedShare,
    v: DownloadEvent,
)
    ensures
        outcome(Ok::<Option<i64>, AppError>(n)) == Ok::<Option<i64>, ErrorView>(n),
        outcome(Err::<Option<i64>, AppError>(e)) == Err::<Option<i64>, ErrorView>(e@),
        share_outcome(Ok(s)) == Ok::<_, ErrorView>(s@) && share_outcome(Err(e)) is Err
            && share_outcome(Err(e))->Err_0 == e@,
        unlock_outcome(Ok(u)) == Ok::<_, ErrorView>(u@) && unlock_outcome(Err(e)) is Err
            && unlock_outcome(Err(e))->Err_0 == e@,
        reply_outcome(Ok(d)) == Ok::<_, ErrorView>(d@) && reply_outcome(Err(e)) is Err
            && reply_outcome(Err(e))->Err_0 == e@,
        page_outcome(Ok(p)) == Ok::<_, ErrorView>(p@) && page_outcome(Err(e)) is Err
            && page_outcome(Err(e))->Err_0 == e@,
        info_outcome(Ok(i)) == Ok::<_, ErrorView>(i@) && info_outcome(Err(e)) is Err
            && info_outcome(Err(e))->Err_0 == e@,
        created_outcome(Ok(c)) == Ok::<_, ErrorView>(c@) && created_outcome(Err(e)) is Err
            && created_outcome(Err(e))->Err_0 == e@,
        opt_event(Some(v)) == Some(v@) && opt_event(None) is None,
{
}

} // verus!
