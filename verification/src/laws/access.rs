//! What holds of recipients: what they can get at, what they are told, and how
//! their visits are counted.

use crate::auth::accepts;
use crate::db::{entries_of, failures_since, RegistryView, ShareView};
use crate::download::{
    admission, after_secs, client_of, counted_before, downloading, granted, info, loaded, opens,
    page_answer, planned, registry_after_claim, servable, session_cookie, session_of,
    sessions_after_claim, sessions_after_page, token_carried, tokens_after_unlock, unlock_answer,
    verdict, ReplyView, Verdict, SESSION_SECS,
};
use crate::error::ErrorView;
use crate::headers::{
    cookie_pair, header_chars, header_of, law_cookies_read_back, law_range_lies_in_file, range_of,
    unsatisfied_range, RequestHeaders,
};
use crate::ids::{is_token, law_tokens_are_plain, SESSION_TOKEN_LEN};
use crate::laws::registry::law_inserted_folder_is_found;
use crate::net::IpAddr;
use crate::shares::{
    creation, folder_creation, sizes_sum, update, CreatedView, FolderView, UpdateShareRequest,
    UploadView,
};
use crate::state::{live_sessions, live_tokens, AppState, SessionView, TokenView};
use vstd::prelude::*;

verus! {

// ---------------------------------------------------------------------------
// What recipients are told

/// An id that was never given out, one that was revoked, one that has expired and
/// one that is used up are answered alike, whatever is asked of them.
pub proof fn law_dead_ids_look_alike(
    v: RegistryView,
    a: Seq<char>,
    b: Seq<char>,
    ip: IpAddr,
    password: Seq<char>,
    token: Seq<char>,
    max: i64,
    window: i64,
    ttl: u64,
    now: i64,
)
    requires
        !servable(v, a, false, now),
        !servable(v, b, false, now),
    ensures
        loaded(v, a, false, now) == Err::<ShareView, ErrorView>(ErrorView::NotFound),
        loaded(v, a, false, now) == loaded(v, b, false, now),
        info(v, a, now) == info(v, b, now),
        page_answer(v, a, token, now) == page_answer(v, b, token, now),
        unlock_answer(v, verdict(v, a, ip, password, max, window, now), token, a, ttl)
            == unlock_answer(v, verdict(v, b, ip, password, max, window, now), token, b, ttl),
{
}

/// The same share, lying elsewhere.
pub open spec fn moved(s: ShareView, file_path: Seq<char>) -> ShareView {
    ShareView { file_path: file_path, ..s }
}

/// Nothing that leaves the server tells where a file lies: wherever it lies, the
/// dashboard and the recipients are told the same.
pub proof fn law_path_is_not_told(
    v: RegistryView,
    id: Seq<char>,
    file_path: Seq<char>,
    token: Seq<char>,
    now: i64,
    range: Option<Vec<u8>>,
    file_len: u64,
)
    requires
        v.valid(),
        v.shares.contains_key(id),
    ensures
        ({
            let s = v.shares[id];
            let w = v.put(moved(s, file_path));
            &&& w.shares[id] == moved(s, file_path)
            &&& w.shares[id].summary() == s.summary()
            &&& info(w, id, now) == info(v, id, now)
            &&& page_answer(w, id, token, now) == page_answer(v, id, token, now)
            &&& planned(w.shares[id].display_name, w.shares[id].is_folder, range, file_len)
                == planned(s.display_name, s.is_folder, range, file_len)
        }),
{
}

/// Neither the dashboard nor a recipient is told what is kept of a password: only
/// whether there is one.
pub proof fn law_password_hash_is_not_told(
    v: RegistryView,
    id: Seq<char>,
    hash: Seq<char>,
    token: Seq<char>,
    now: i64,
)
    requires
        v.valid(),
        v.shares.contains_key(id),
        v.shares[id].password_hash is Some,
    ensures
        ({
            let s = v.shares[id];
            let w = v.put(ShareView { password_hash: Some(hash), ..s });
            &&& w.shares[id].summary() == s.summary()
            &&& info(w, id, now) == info(v, id, now)
            &&& page_answer(w, id, token, now) == page_answer(v, id, token, now)
        }),
{
}

/// What a proxy reports counts only where the proxy runs on this machine.
pub proof fn law_only_a_local_proxy_is_believed(
    peer: IpAddr,
    a: Option<IpAddr>,
    b: Option<IpAddr>,
)
    ensures
        !peer.loopback() ==> client_of(peer, a) == peer && client_of(peer, a) == client_of(peer, b),
        peer.loopback() ==> client_of(peer, a) == match a {
            Some(ip) => ip,
            None => peer,
        },
{
}

// ---------------------------------------------------------------------------
// What recipients can get at

/// Whoever is let through to a file is within the rate, asks for a share that is
/// active and not expired, and has its token if it is protected. If the share is
/// used up, the visit was counted before.
pub proof fn law_admission_needs_everything(
    v: RegistryView,
    tokens: Map<Seq<char>, TokenView>,
    sessions: Map<Seq<char>, SessionView>,
    within_rate: bool,
    id: Seq<char>,
    ip: IpAddr,
    headers: RequestHeaders,
    now: i64,
    tick: u128,
)
    requires
        admission(v, tokens, sessions, within_rate, id, ip, headers, now, tick) is Ok,
    ensures
        within_rate,
        v.shares.contains_key(id),
        admission(v, tokens, sessions, within_rate, id, ip, headers, now, tick) == Ok::<
            ShareView,
            ErrorView,
        >(v.shares[id]),
        v.shares[id].active(),
        !v.shares[id].expired(now),
        v.shares[id].exhausted() ==> counted_before(
            sessions,
            session_cookie(headers),
            id,
            ip,
            tick,
        ),
        v.shares[id].password_hash is Some ==> opens(tokens, token_carried(headers), id, ip, tick),
{
}

/// A token that was given out for a password opens the share that the password
/// was given for, from the address that gave it, until its time is over; and
/// nothing else.
pub proof fn law_token_opens_its_share_alone(
    tokens: Map<Seq<char>, TokenView>,
    token: Seq<char>,
    id: Seq<char>,
    ip: IpAddr,
    ttl: u64,
    given: u128,
    asked: Seq<char>,
    from: IpAddr,
    tick: u128,
)
    requires
        after_secs(given, ttl) <= u128::MAX,
    ensures
        opens(
            tokens_after_unlock(tokens, Verdict::Right, token, id, ip, ttl, given),
            Some(token),
            asked,
            from,
            tick,
        ) <==> asked == id && from == ip && tick < after_secs(given, ttl),
{
}

/// A token that was never given out opens nothing, and giving one out changes
/// nothing for the others.
pub proof fn law_tokens_do_not_interfere(
    tokens: Map<Seq<char>, TokenView>,
    verdict: Verdict,
    token: Seq<char>,
    id: Seq<char>,
    ip: IpAddr,
    ttl: u64,
    given: u128,
    other: Seq<char>,
    asked: Seq<char>,
    from: IpAddr,
    tick: u128,
)
    requires
        other != token,
    ensures
        opens(
            tokens_after_unlock(tokens, verdict, token, id, ip, ttl, given),
            Some(other),
            asked,
            from,
            tick,
        ) == opens(tokens, Some(other), asked, from, tick),
        !tokens.contains_key(other) ==> !opens(tokens, Some(other), asked, from, tick),
{
}

/// Dropping what is over changes nothing for the tokens and the visits that are
/// not.
pub proof fn law_sweeping_tokens_is_not_noticed(
    tokens: Map<Seq<char>, TokenView>,
    sessions: Map<Seq<char>, SessionView>,
    token: Option<Seq<char>>,
    id: Seq<char>,
    ip: IpAddr,
    swept: u128,
    tick: u128,
)
    requires
        swept <= tick,
    ensures
        opens(live_tokens(tokens, swept), token, id, ip, tick) == opens(tokens, token, id, ip, tick),
        session_of(live_sessions(sessions, swept), token, id, ip, tick) == session_of(
            sessions,
            token,
            id,
            ip,
            tick,
        ),
        counted_before(live_sessions(sessions, swept), token, id, ip, tick) == counted_before(
            sessions,
            token,
            id,
            ip,
            tick,
        ),
{
}

// ---------------------------------------------------------------------------
// Visits

/// Opening the link of a share opens a visit: it is for this share and this
/// address, it is not counted yet, and it lasts a day.
pub proof fn law_page_opens_a_visit(
    v: RegistryView,
    sessions: Map<Seq<char>, SessionView>,
    id: Seq<char>,
    ip: IpAddr,
    token: Seq<char>,
    now: i64,
    opened: u128,
    tick: u128,
)
    requires
        servable(v, id, false, now),
        after_secs(opened, SESSION_SECS) <= u128::MAX,
        tick < after_secs(opened, SESSION_SECS),
    ensures
        ({
            let after = sessions_after_page(v, sessions, id, ip, token, now, opened);
            &&& session_of(after, Some(token), id, ip, tick) == Some(token)
            &&& !counted_before(after, Some(token), id, ip, tick)
        }),
{
}

/// The cookies that were given out are found again in the requests that carry
/// them: the visit by one of them, the right to a protected share by the other.
pub proof fn law_cookies_given_out_are_found(
    headers: RequestHeaders,
    session: Seq<char>,
    unlock: Seq<char>,
)
    requires
        is_token(session, SESSION_TOKEN_LEN as int),
        is_token(unlock, SESSION_TOKEN_LEN as int),
        headers.unlock_token is None,
        header_of(headers.cookie) == Some(
            cookie_pair("tempshare_session"@, session) + "; "@ + cookie_pair(
                "tempshare_unlock"@,
                unlock,
            ),
        ),
    ensures
        session_cookie(headers) == Some(session),
        token_carried(headers) == Some(unlock),
{
    reveal_strlit("tempshare_session");
    reveal_strlit("tempshare_unlock");
    law_tokens_are_plain(session, SESSION_TOKEN_LEN as int);
    law_tokens_are_plain(unlock, SESSION_TOKEN_LEN as int);
    assert("tempshare_session"@.len() != "tempshare_unlock"@.len());
    law_cookies_read_back(
        headers.cookie,
        "tempshare_session"@,
        session,
        "tempshare_unlock"@,
        unlock,
    );
}

/// However often a download is resumed in a visit, it is counted once: after the
/// first piece was granted, every further one is granted as long as the visit is
/// open, even where the limit is used up by then, and leaves the count as it is.
pub proof fn law_visit_is_counted_once(
    v: RegistryView,
    sessions: Map<Seq<char>, SessionView>,
    cookie: Option<Seq<char>>,
    id: Seq<char>,
    ip: IpAddr,
    now: i64,
    tick: u128,
    later_v: RegistryView,
    later: i64,
    later_tick: u128,
)
    requires
        session_of(sessions, cookie, id, ip, tick) is Some,
        granted(v, sessions, cookie, id, ip, now, tick),
        tick <= later_tick,
        session_of(sessions, cookie, id, ip, later_tick) is Some,
    ensures
        ({
            let after = sessions_after_claim(v, sessions, cookie, id, ip, now, tick);
            &&& counted_before(after, cookie, id, ip, later_tick)
            &&& granted(later_v, after, cookie, id, ip, later, later_tick)
            &&& registry_after_claim(later_v, after, cookie, id, ip, later, later_tick) == later_v
            &&& sessions_after_claim(later_v, after, cookie, id, ip, later, later_tick) == after
        }),
{
}

/// The first piece of a visit is counted, if it is granted.
pub proof fn law_first_piece_is_counted(
    v: RegistryView,
    sessions: Map<Seq<char>, SessionView>,
    cookie: Option<Seq<char>>,
    id: Seq<char>,
    ip: IpAddr,
    now: i64,
    tick: u128,
)
    requires
        v.valid(),
        !counted_before(sessions, cookie, id, ip, tick),
        granted(v, sessions, cookie, id, ip, now, tick),
        v.shares[id].download_count < i64::MAX,
    ensures
        registry_after_claim(v, sessions, cookie, id, ip, now, tick).shares[id].download_count
            == v.shares[id].download_count + 1,
{
}

/// Where the limit is used up, whoever has no visit that was counted is turned
/// away, before and after any look at the file.
pub proof fn law_used_up_share_is_closed_to_new_visitors(
    v: RegistryView,
    tokens: Map<Seq<char>, TokenView>,
    sessions: Map<Seq<char>, SessionView>,
    id: Seq<char>,
    ip: IpAddr,
    headers: RequestHeaders,
    now: i64,
    tick: u128,
)
    requires
        v.shares.contains_key(id),
        v.shares[id].exhausted(),
        !counted_before(sessions, session_cookie(headers), id, ip, tick),
    ensures
        admission(v, tokens, sessions, true, id, ip, headers, now, tick) == Err::<
            ShareView,
            ErrorView,
        >(ErrorView::NotFound),
        !granted(v, sessions, session_cookie(headers), id, ip, now, tick),
        registry_after_claim(
            v,
            sessions,
            session_cookie(headers),
            id,
            ip,
            now,
            tick,
        ) == v,
{
}

/// A request whose range cannot be served uses up nothing: it is answered before
/// the download is claimed, with no byte of the file.
pub proof fn law_malformed_range_gets_nothing(
    before: AppState,
    after: AppState,
    v: RegistryView,
    v_after: RegistryView,
    share: ShareView,
    ip: IpAddr,
    id: Seq<char>,
    headers: RequestHeaders,
    file_len: u64,
    tick: u128,
    now: i64,
    reply: Result<ReplyView, ErrorView>,
)
    requires
        downloading(
            before,
            after,
            v,
            v_after,
            share,
            ip,
            id,
            headers,
            file_len,
            tick,
            now,
            reply,
        ),
        header_of(headers.range) matches Some(text) ==> range_of(text, file_len) is None,
        headers.range is Some,
    ensures
        reply == Ok::<ReplyView, ErrorView>(
            ReplyView::NotSatisfiable { content_range: unsatisfied_range(file_len as int) },
        ),
        v_after == v,
        after.download_sessions == before.download_sessions,
{
}

/// A request for a part of a file is never answered with all of it as if no part
/// had been asked for.
pub proof fn law_range_is_not_passed_over(
    name: Seq<char>,
    is_folder: bool,
    range: Option<Vec<u8>>,
    file_len: u64,
)
    requires
        range is Some,
    ensures
        match planned(name, is_folder, range, file_len) {
            ReplyView::NotSatisfiable { .. } => true,
            ReplyView::Empty { .. } => false,
            ReplyView::Bytes { head, start, len } => head.status == 206 && head.content_range
                is Some && 0 < len && start + len <= file_len,
        },
{
    if let Some(value) = range {
        if let Some(text) = header_chars(value@) {
            law_range_lies_in_file(text, file_len);
        }
    }
}

// ---------------------------------------------------------------------------
// From the sender to the recipient

/// A share that was made can be had at once, by whoever has its link: it is found
/// under its id, a download of it can be claimed, and its password, where it has
/// one, unlocks it as long as not too many guesses have failed.
pub proof fn law_created_share_can_be_had(
    before: RegistryView,
    after: RegistryView,
    upload: UploadView,
    file_path: Seq<char>,
    base_url: Seq<char>,
    hash: Option<Seq<char>>,
    now: i64,
    created: CreatedView,
    ip: IpAddr,
    max: i64,
    window: i64,
)
    requires
        creation(
            before,
            after,
            upload,
            file_path,
            base_url,
            hash,
            now,
            Ok::<CreatedView, ErrorView>(created),
        ),
        failures_since(before.failures, upload.share_id, ip, (now - window) as i64) < max,
    ensures
        created.id == upload.share_id,
        servable(after, created.id, false, now),
        after.claimable(created.id, now),
        after.shares[created.id].file_path == file_path,
        after.shares[created.id].size_bytes == upload.size_bytes,
        match upload.form.password {
            None => verdict(after, created.id, ip, Seq::empty(), max, window, now) is Open,
            Some(p) => verdict(after, created.id, ip, p, max, window, now) is Right,
        },
{
}

/// The same of a folder. Its files are those that were uploaded, and its size is
/// theirs added up.
pub proof fn law_created_folder_can_be_had(
    before: RegistryView,
    after: RegistryView,
    upload: FolderView,
    folder_path: Seq<char>,
    base_url: Seq<char>,
    hash: Option<Seq<char>>,
    now: i64,
    created: CreatedView,
    ip: IpAddr,
    max: i64,
    window: i64,
)
    requires
        before.valid(),
        upload.sound(),
        upload.current is None,
        folder_creation(
            before,
            after,
            upload,
            folder_path,
            base_url,
            hash,
            now,
            Ok::<CreatedView, ErrorView>(created),
        ),
        failures_since(before.failures, upload.share_id, ip, (now - window) as i64) < max,
    ensures
        created.id == upload.share_id,
        servable(after, created.id, false, now),
        after.claimable(created.id, now),
        after.shares[created.id].file_path == folder_path,
        after.shares[created.id].size_bytes == sizes_sum(upload.entries),
        entries_of(after.entries, created.id) == upload.entries,
        match upload.form.password {
            None => verdict(after, created.id, ip, Seq::empty(), max, window, now) is Open,
            Some(p) => verdict(after, created.id, ip, p, max, window, now) is Right,
        },
{
    let settings = upload.settings(now)->Ok_0;
    law_inserted_folder_is_found(
        before,
        upload.share(folder_path, settings, hash, now),
        upload.entries,
    );
}

/// After a change of settings the new ones hold: the new password unlocks the
/// share, an empty one takes the protection away, and what was not to be changed
/// is as it was.
pub proof fn law_changed_settings_hold(
    before: RegistryView,
    after: RegistryView,
    id: Seq<char>,
    body: UpdateShareRequest,
    change: Option<Option<Seq<char>>>,
    now: i64,
)
    requires
        before.valid(),
        update(before, after, id, body, change, now, Ok::<(), ErrorView>(())),
    ensures
        after.shares.contains_key(id),
        match body.password {
            None => after.shares[id].password_hash == before.shares[id].password_hash,
            Some(p) => if p@.len() == 0 {
                after.shares[id].password_hash is None
            } else {
                after.shares[id].password_hash matches Some(h) && accepts(p@, h)
            },
        },
        body.expires is None ==> after.shares[id].expires_at == before.shares[id].expires_at,
        body.expires is Some ==> !after.shares[id].expired(now),
        body.max_downloads is None ==> after.shares[id].max_downloads
            == before.shares[id].max_downloads,
        after.shares[id].download_count == before.shares[id].download_count,
        after.shares[id].status == before.shares[id].status,
        after.shares[id].file_path == before.shares[id].file_path,
        after.entries == before.entries,
{
}

} // verus!
