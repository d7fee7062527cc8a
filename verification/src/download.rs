//! The side that recipients reach. A share id is turned into a file through the
//! registry and in no other way.

use crate::auth::{accepts, hits_after, lets_in, verify_password};
use crate::clock::{now_ts, on_clock, CLOCK_END};
use crate::db;
use crate::db::{
    entries_of, entry_views, failures_since, DownloadEvent, EntryView, EventView, Registry,
    RegistryView, Share, ShareEntry, ShareView,
};
use crate::error::{AppError, ErrorView};
use crate::headers::{
    can_be_header, content_disposition, content_range, cookie_of, cookie_value, disposition,
    fits_header, header_chars, header_of, header_text, law_range_lies_in_file, parse_range_chars,
    range_of, unsatisfied_range, RequestHeaders,
};
use crate::ids::{generate_session_token, is_token, SESSION_TOKEN_LEN};
use crate::net::IpAddr;
use crate::page::{page, render_page, CONTENT_SECURITY_POLICY};
use crate::state::{
    AppState, DownloadSession, SessionView, TokenView, UnlockToken, NANOS_PER_SEC,
};
use crate::text::{decimal, decimal_text, same_text, text_of};
use vstd::prelude::*;

verus! {

// ---------------------------------------------------------------------------
// Who asks, and for what

/// The address that a request counts for. What a proxy reports is believed only
/// where the proxy runs on this machine.
pub open spec fn client_of(peer: IpAddr, forwarded: Option<IpAddr>) -> IpAddr {
    if peer.loopback() && forwarded is Some {
        forwarded->0
    } else {
        peer
    }
}

/// The address that a request counts for.
pub fn client_ip(peer: IpAddr, headers: &RequestHeaders) -> (r: IpAddr)
    ensures
        r == client_of(peer, headers.forwarded_ip),
{
    if peer.is_loopback() {
        if let Some(ip) = headers.forwarded_ip {
            return ip;
        }
    }
    peer
}

/// Whether a share can be served: it is there, active, not expired, and not used
/// up unless the visit was counted before.
pub open spec fn servable(v: RegistryView, id: Seq<char>, allow_exhausted: bool, now: i64) -> bool {
    v.shares.contains_key(id) && v.shares[id].active() && !v.shares[id].expired(now) && (
    allow_exhausted || !v.shares[id].exhausted())
}

/// The share, or the one answer that is given for every share that cannot be
/// served, whatever the reason.
pub open spec fn loaded(v: RegistryView, id: Seq<char>, allow_exhausted: bool, now: i64) -> Result<
    ShareView,
    ErrorView,
> {
    if servable(v, id, allow_exhausted, now) {
        Ok(v.shares[id])
    } else {
        Err(ErrorView::NotFound)
    }
}

/// A share that may be refused, by what it stands for.
pub open spec fn share_outcome(r: Result<Share, AppError>) -> Result<ShareView, ErrorView> {
    match r {
        Ok(s) => Ok(s@),
        Err(e) => Err(e@),
    }
}

/// The share that can be served under an id, at a given time.
pub fn load_active_share_at(
    registry: &Registry,
    id: &str,
    allow_exhausted: bool,
    now: i64,
) -> (r: Result<Share, AppError>)
    requires
        registry.wf(),
    ensures
        share_outcome(r) == loaded(registry@, id@, allow_exhausted, now),
{
    let share = match db::get_share(registry, id) {
        Some(share) => share,
        None => {
            return Err(AppError::NotFound);
        },
    };
    if !share.is_active() {
        return Err(AppError::NotFound);
    }
    if share.has_expired(now) {
        return Err(AppError::NotFound);
    }
    if !allow_exhausted && share.is_exhausted() {
        return Err(AppError::NotFound);
    }
    Ok(share)
}

/// The share that can be served under an id, where a visit that was counted
/// before may go on.
pub fn load_active_share_with_session(registry: &Registry, id: &str, allow_exhausted: bool) -> (r:
    Result<Share, AppError>)
    requires
        registry.wf(),
    ensures
        exists|now: i64|
            on_clock(now) && share_outcome(r) == #[trigger] loaded(
                registry@,
                id@,
                allow_exhausted,
                now,
            ),
{
    load_active_share_at(registry, id, allow_exhausted, now_ts())
}

/// The share that can be served under an id. A share that is missing, revoked,
/// expired or used up is answered the same, so that nobody can tell an id that
/// was never given out from one that is no longer good.
pub fn load_active_share(registry: &Registry, id: &str) -> (r: Result<Share, AppError>)
    requires
        registry.wf(),
    ensures
        exists|now: i64|
            on_clock(now) && share_outcome(r) == #[trigger] loaded(registry@, id@, false, now),
{
    load_active_share_with_session(registry, id, false)
}

// ---------------------------------------------------------------------------
// Unlocking

/// The password that a recipient gives.
pub struct UnlockRequest {
    pub password: String,
}

/// The answer to a recipient who unlocked a share: the token, and the cookie that
/// carries it. Neither is there where the share has no password.
pub struct UnlockReply {
    pub token: Option<String>,
    pub cookie: Option<String>,
}

#[verifier::ext_equal]
pub struct UnlockView {
    pub token: Option<Seq<char>>,
    pub cookie: Option<Seq<char>>,
}

impl View for UnlockReply {
    type V = UnlockView;

    open spec fn view(&self) -> UnlockView {
        UnlockView { token: db::opt_view(self.token), cookie: db::opt_view(self.cookie) }
    }
}

/// What an attempt to unlock comes to.
pub enum Verdict {
    /// There is no such share to be had.
    NotFound,
    /// There is nothing to unlock.
    Open,
    /// Too many attempts have failed; the password is not even looked at.
    Limited,
    Wrong,
    Right,
}

/// What an attempt to unlock a share comes to, given whether the password is
/// accepted.
pub open spec fn verdict_given(
    v: RegistryView,
    id: Seq<char>,
    ip: IpAddr,
    accepted: bool,
    failed_auth_max: i64,
    failed_auth_window_secs: i64,
    now: i64,
) -> Verdict {
    if !servable(v, id, false, now) {
        Verdict::NotFound
    } else if v.shares[id].password_hash is None {
        Verdict::Open
    } else if failures_since(v.failures, id, ip, (now - failed_auth_window_secs) as i64)
        >= failed_auth_max {
        Verdict::Limited
    } else if accepted {
        Verdict::Right
    } else {
        Verdict::Wrong
    }
}

/// What an attempt to unlock a share comes to.
pub open spec fn verdict(
    v: RegistryView,
    id: Seq<char>,
    ip: IpAddr,
    password: Seq<char>,
    failed_auth_max: i64,
    failed_auth_window_secs: i64,
    now: i64,
) -> Verdict {
    let accepted = v.shares[id].password_hash matches Some(hash) && accepts(password, hash);
    verdict_given(v, id, ip, accepted, failed_auth_max, failed_auth_window_secs, now)
}

/// What stands before a look at the password: the text that is kept of it, or
/// nothing where there is nothing to unlock.
pub open spec fn unlock_gate(
    v: RegistryView,
    id: Seq<char>,
    ip: IpAddr,
    failed_auth_max: i64,
    failed_auth_window_secs: i64,
    now: i64,
) -> Result<Option<Seq<char>>, ErrorView> {
    match verdict_given(v, id, ip, true, failed_auth_max, failed_auth_window_secs, now) {
        Verdict::NotFound => Err(ErrorView::NotFound),
        Verdict::Limited => Err(ErrorView::RateLimited),
        _ => Ok(v.shares[id].password_hash),
    }
}

/// A cookie of this server, for the downloads of one share.
pub open spec fn cookie_text(
    name: Seq<char>,
    token: Seq<char>,
    id: Seq<char>,
    max_age: nat,
) -> Seq<char> {
    name + "="@ + token + "; Path=/download/"@ + id + "; Max-Age="@ + decimal(max_age)
        + "; HttpOnly; Secure; SameSite=Strict"@
}

fn write_cookie(name: &str, token: &str, id: &str, max_age: u64) -> (r: String)
    ensures
        r@ == cookie_text(name@, token@, id@, max_age as nat),
{
    let mut out = name.to_string();
    out.append("=");
    out.append(token);
    out.append("; Path=/download/");
    out.append(id);
    out.append("; Max-Age=");
    out.append(decimal_text(max_age).as_str());
    out.append("; HttpOnly; Secure; SameSite=Strict");
    out
}

/// When a stretch of seconds from `tick` on is over.
pub open spec fn after_secs(tick: u128, secs: u64) -> int {
    tick + secs * NANOS_PER_SEC
}

fn add_secs(tick: u128, secs: u64) -> (r: u128)
    requires
        after_secs(tick, secs) <= u128::MAX,
    ensures
        r == after_secs(tick, secs),
{
    tick + (secs as u128) * NANOS_PER_SEC
}

/// What the tokens are after an attempt to unlock.
pub open spec fn tokens_after_unlock(
    tokens: Map<Seq<char>, TokenView>,
    verdict: Verdict,
    token: Seq<char>,
    id: Seq<char>,
    ip: IpAddr,
    ttl: u64,
    tick: u128,
) -> Map<Seq<char>, TokenView> {
    match verdict {
        Verdict::Right => tokens.insert(
            token,
            TokenView { share_id: id, client_ip: ip, expires_at: after_secs(tick, ttl) as u128 },
        ),
        _ => tokens,
    }
}

/// What the registry is after an attempt to unlock: a wrong password is recorded.
pub open spec fn registry_after_unlock(
    v: RegistryView,
    verdict: Verdict,
    id: Seq<char>,
    ip: IpAddr,
    now: i64,
) -> RegistryView {
    match verdict {
        Verdict::Wrong => if v.failures.len() < i64::MAX {
            v.with_failure(id, ip, now)
        } else {
            v
        },
        _ => v,
    }
}

/// The answer to an attempt to unlock.
pub open spec fn unlock_answer(
    v: RegistryView,
    verdict: Verdict,
    token: Seq<char>,
    id: Seq<char>,
    ttl: u64,
) -> Result<UnlockView, ErrorView> {
    let cookie = cookie_text("tempshare_unlock"@, token, id, ttl as nat);
    match verdict {
        Verdict::NotFound => Err(ErrorView::NotFound),
        Verdict::Open => Ok(UnlockView { token: None, cookie: None }),
        Verdict::Limited => Err(ErrorView::RateLimited),
        Verdict::Wrong => if v.failures.len() < i64::MAX {
            Err(ErrorView::IncorrectPassword)
        } else {
            Err(ErrorView::Internal("failed attempt could not be recorded"@))
        },
        Verdict::Right => if can_be_header(cookie) {
            Ok(UnlockView { token: Some(token), cookie: Some(cookie) })
        } else {
            Err(ErrorView::Internal("cookie is no header value"@))
        },
    }
}

/// An answer to an attempt to unlock, by what it stands for.
pub open spec fn unlock_outcome(r: Result<UnlockReply, AppError>) -> Result<UnlockView, ErrorView> {
    match r {
        Ok(reply) => Ok(reply@),
        Err(e) => Err(e@),
    }
}

/// What stays as it is where only tokens and sessions change.
pub open spec fn same_but_tokens(before: AppState, after: AppState) -> bool {
    after.config == before.config && after.rate_limiter == before.rate_limiter
        && after.public_base_url == before.public_base_url && after.tunnel_status
        == before.tunnel_status
}

/// Whether there is a password to look at, and what it is to be checked against.
pub fn unlock_gate_at(state: &AppState, registry: &Registry, ip: IpAddr, id: &str, now: i64) -> (r:
    Result<Option<String>, AppError>)
    requires
        registry.wf(),
        i64::MIN <= now - state.config.failed_auth_window_secs <= i64::MAX,
    ensures
        match r {
            Ok(hash) => Ok(db::opt_view(hash)),
            Err(e) => Err(e@),
        } == unlock_gate(
            registry@,
            id@,
            ip,
            state.config.failed_auth_max,
            state.config.failed_auth_window_secs,
            now,
        ),
{
    let share = match load_active_share_at(registry, id, false, now) {
        Ok(share) => share,
        Err(e) => {
            return Err(e);
        },
    };
    if share.password_hash.is_none() {
        return Ok(None);
    }
    let since: i64 = now - state.config.failed_auth_window_secs;
    let recent_failures: i64 = db::count_recent_failed_auth(registry, id, ip, since);
    if recent_failures >= state.config.failed_auth_max {
        return Err(AppError::RateLimited);
    }
    Ok(share.password_hash)
}

/// What follows a look at the password: `token` is given out where it was
/// accepted, and a failure is recorded where it was not.
pub fn settle_unlock(
    state: &mut AppState,
    registry: &mut Registry,
    ip: IpAddr,
    id: &str,
    accepted: bool,
    token: String,
    now: i64,
    tick: u128,
) -> (r: Result<UnlockReply, AppError>)
    requires
        old(state).wf(),
        old(registry).wf(),
        after_secs(tick, old(state).config.unlock_token_ttl_secs) <= u128::MAX,
    ensures
        final(state).wf(),
        final(registry).wf(),
        same_but_tokens(*old(state), *final(state)),
        final(state).download_sessions == old(state).download_sessions,
        ({
            let verdict = if accepted {
                Verdict::Right
            } else {
                Verdict::Wrong
            };
            let ttl = old(state).config.unlock_token_ttl_secs;
            &&& final(registry)@ == registry_after_unlock(old(registry)@, verdict, id@, ip, now)
            &&& final(state).unlock_tokens@ == tokens_after_unlock(
                old(state).unlock_tokens@,
                verdict,
                token@,
                id@,
                ip,
                ttl,
                tick,
            )
            &&& unlock_outcome(r) == unlock_answer(old(registry)@, verdict, token@, id@, ttl)
        }),
{
    proof {
        registry.lemma_valid();
    }
    if !accepted {
        return match db::record_failed_auth(registry, id, ip, now) {
            Ok(_) => Err(AppError::IncorrectPassword),
            Err(_) => Err(AppError::Internal("failed attempt could not be recorded".to_string())),
        };
    }
    let ttl: u64 = state.config.unlock_token_ttl_secs;
    let cookie = write_cookie("tempshare_unlock", token.as_str(), id, ttl);
    state.unlock_tokens.insert(
        token.clone(),
        UnlockToken { share_id: id.to_string(), client_ip: ip, expires_at: add_secs(tick, ttl) },
    );
    if !fits_header(cookie.as_str()) {
        return Err(AppError::Internal("cookie is no header value".to_string()));
    }
    Ok(UnlockReply { token: Some(token), cookie: Some(cookie) })
}

/// Checks a password at a given time, and gives `token` out for it if it is
/// right.
pub fn unlock_share_at(
    state: &mut AppState,
    registry: &mut Registry,
    ip: IpAddr,
    id: &str,
    body: &UnlockRequest,
    token: String,
    now: i64,
    tick: u128,
) -> (r: Result<UnlockReply, AppError>)
    requires
        old(state).wf(),
        old(registry).wf(),
        i64::MIN <= now - old(state).config.failed_auth_window_secs <= i64::MAX,
        after_secs(tick, old(state).config.unlock_token_ttl_secs) <= u128::MAX,
    ensures
        final(state).wf(),
        final(registry).wf(),
        same_but_tokens(*old(state), *final(state)),
        final(state).download_sessions == old(state).download_sessions,
        unlocking(
            old(registry)@,
            final(registry)@,
            old(state).unlock_tokens@,
            final(state).unlock_tokens@,
            id@,
            ip,
            body.password@,
            old(state).config.failed_auth_max,
            old(state).config.failed_auth_window_secs,
            old(state).config.unlock_token_ttl_secs,
            tick,
            token@,
            now,
            unlock_outcome(r),
        ),
{
    let hash = match unlock_gate_at(state, registry, ip, id, now) {
        Err(e) => {
            return Err(e);
        },
        Ok(None) => {
            return Ok(UnlockReply { token: None, cookie: None });
        },
        Ok(Some(hash)) => hash,
    };
    let accepted = verify_password(body.password.as_str(), hash.as_str());
    settle_unlock(state, registry, ip, id, accepted, token, now, tick)
}

/// What an attempt to unlock did, at `now` and with `token`.
pub open spec fn unlocking(
    before: RegistryView,
    after: RegistryView,
    tokens: Map<Seq<char>, TokenView>,
    tokens_after: Map<Seq<char>, TokenView>,
    id: Seq<char>,
    ip: IpAddr,
    password: Seq<char>,
    failed_auth_max: i64,
    failed_auth_window_secs: i64,
    ttl: u64,
    tick: u128,
    token: Seq<char>,
    now: i64,
    reply: Result<UnlockView, ErrorView>,
) -> bool {
    let verdict = verdict(
        before,
        id,
        ip,
        password,
        failed_auth_max,
        failed_auth_window_secs,
        now,
    );
    &&& after == registry_after_unlock(before, verdict, id, ip, now)
    &&& tokens_after == tokens_after_unlock(tokens, verdict, token, id, ip, ttl, tick)
    &&& reply == unlock_answer(before, verdict, token, id, ttl)
}

/// Checks the password that a recipient gives, and gives a fresh token out for it
/// if it is right. Checking and recording are one step: guesses that arrive
/// together do not all pass one check.
pub fn unlock_share(
    state: &mut AppState,
    registry: &mut Registry,
    peer: IpAddr,
    id: &str,
    headers: &RequestHeaders,
    body: &UnlockRequest,
    tick: u128,
) -> (r: Result<UnlockReply, AppError>)
    requires
        old(state).wf(),
        old(registry).wf(),
        old(state).config.failed_auth_window_secs >= CLOCK_END - i64::MAX,
        after_secs(tick, old(state).config.unlock_token_ttl_secs) <= u128::MAX,
    ensures
        final(state).wf(),
        final(registry).wf(),
        same_but_tokens(*old(state), *final(state)),
        final(state).download_sessions == old(state).download_sessions,
        exists|token: Seq<char>, now: i64|
            is_token(token, SESSION_TOKEN_LEN as int) && on_clock(now) && #[trigger] unlocking(
                old(registry)@,
                final(registry)@,
                old(state).unlock_tokens@,
                final(state).unlock_tokens@,
                id@,
                client_of(peer, headers.forwarded_ip),
                body.password@,
                old(state).config.failed_auth_max,
                old(state).config.failed_auth_window_secs,
                old(state).config.unlock_token_ttl_secs,
                tick,
                token,
                now,
                unlock_outcome(r),
            ),
{
    let ip = client_ip(peer, headers);
    let token = generate_session_token();
    unlock_share_at(state, registry, ip, id, body, token, now_ts(), tick)
}

/// The token that a request carries, in its own header or in the cookie.
pub open spec fn token_carried(headers: RequestHeaders) -> Option<Seq<char>> {
    match header_of(headers.unlock_token) {
        Some(t) => Some(t),
        None => cookie_of(headers.cookie, "tempshare_unlock"@),
    }
}

/// Whether a token opens a share for an address.
pub open spec fn opens(
    tokens: Map<Seq<char>, TokenView>,
    token: Option<Seq<char>>,
    id: Seq<char>,
    ip: IpAddr,
    tick: u128,
) -> bool {
    token matches Some(t) && tokens.contains_key(t) && tokens[t].expires_at > tick
        && tokens[t].share_id == id && tokens[t].client_ip == ip
}

/// The tokens after one was shown: dropped, if its time is over.
pub open spec fn tokens_after_look(
    tokens: Map<Seq<char>, TokenView>,
    token: Option<Seq<char>>,
    tick: u128,
) -> Map<Seq<char>, TokenView> {
    match token {
        Some(t) => if tokens.contains_key(t) && tokens[t].expires_at <= tick {
            tokens.remove(t)
        } else {
            tokens
        },
        None => tokens,
    }
}

/// Whether a request may download a protected share.
pub fn is_unlocked(
    state: &mut AppState,
    share_id: &str,
    expected_ip: IpAddr,
    headers: &RequestHeaders,
    tick: u128,
) -> (r: bool)
    requires
        old(state).wf(),
    ensures
        final(state).wf(),
        same_but_tokens(*old(state), *final(state)),
        final(state).download_sessions == old(state).download_sessions,
        r == opens(
            old(state).unlock_tokens@,
            token_carried(*headers),
            share_id@,
            expected_ip,
            tick,
        ),
        final(state).unlock_tokens@ == tokens_after_look(
            old(state).unlock_tokens@,
            token_carried(*headers),
            tick,
        ),
{
    let token: String = match header_text(&headers.unlock_token) {
        Some(chars) => text_of(chars.as_slice()),
        None => match cookie_value(headers, "tempshare_unlock") {
            Some(t) => t,
            None => {
                return false;
            },
        },
    };
    let (live, fits) = match state.unlock_tokens.get(&token) {
        Some(entry) => (
            entry.expires_at > tick,
            same_text(entry.share_id.as_str(), share_id) && entry.client_ip == expected_ip,
        ),
        None => {
            return false;
        },
    };
    if live {
        fits
    } else {
        state.unlock_tokens.remove(&token);
        false
    }
}

// ---------------------------------------------------------------------------
// Visits

/// The session that a request belongs to: the cookie names it, it is still open,
/// and it is for this share and this address.
pub open spec fn session_of(
    sessions: Map<Seq<char>, SessionView>,
    cookie: Option<Seq<char>>,
    id: Seq<char>,
    ip: IpAddr,
    tick: u128,
) -> Option<Seq<char>> {
    match cookie {
        Some(t) => if sessions.contains_key(t) && sessions[t].expires_at > tick
            && sessions[t].share_id == id && sessions[t].client_ip == ip {
            Some(t)
        } else {
            None
        },
        None => None,
    }
}

/// Whether a request belongs to a visit that was counted before.
pub open spec fn counted_before(
    sessions: Map<Seq<char>, SessionView>,
    cookie: Option<Seq<char>>,
    id: Seq<char>,
    ip: IpAddr,
    tick: u128,
) -> bool {
    session_of(sessions, cookie, id, ip, tick) matches Some(t) && sessions[t].counted
}

/// The cookie of a request that names its session.
pub open spec fn session_cookie(headers: RequestHeaders) -> Option<Seq<char>> {
    cookie_of(headers.cookie, "tempshare_session"@)
}

/// Whether a download is granted to a request.
pub open spec fn granted(
    v: RegistryView,
    sessions: Map<Seq<char>, SessionView>,
    cookie: Option<Seq<char>>,
    id: Seq<char>,
    ip: IpAddr,
    now: i64,
    tick: u128,
) -> bool {
    counted_before(sessions, cookie, id, ip, tick) || v.claimable(id, now)
}

/// The registry after a download was asked for: a visit is counted once.
pub open spec fn registry_after_claim(
    v: RegistryView,
    sessions: Map<Seq<char>, SessionView>,
    cookie: Option<Seq<char>>,
    id: Seq<char>,
    ip: IpAddr,
    now: i64,
    tick: u128,
) -> RegistryView {
    if counted_before(sessions, cookie, id, ip, tick) {
        v
    } else {
        v.after_claim(id, now)
    }
}

/// The sessions after a download was asked for: the visit is marked as counted.
pub open spec fn sessions_after_claim(
    v: RegistryView,
    sessions: Map<Seq<char>, SessionView>,
    cookie: Option<Seq<char>>,
    id: Seq<char>,
    ip: IpAddr,
    now: i64,
    tick: u128,
) -> Map<Seq<char>, SessionView> {
    match session_of(sessions, cookie, id, ip, tick) {
        Some(t) => if !sessions[t].counted && v.claimable(id, now) {
            sessions.insert(t, SessionView { counted: true, ..sessions[t] })
        } else {
            sessions
        },
        None => sessions,
    }
}

/// Claims a download for a request, at a given time. A visit that was counted
/// before is let in without being counted again.
pub fn claim_download_session_at(
    state: &mut AppState,
    registry: &mut Registry,
    share_id: &str,
    expected_ip: IpAddr,
    headers: &RequestHeaders,
    now: i64,
    tick: u128,
) -> (r: bool)
    requires
        old(state).wf(),
        old(registry).wf(),
        old(registry)@.claimable(share_id@, now)
            ==> old(registry)@.shares[share_id@].download_count < i64::MAX,
    ensures
        final(state).wf(),
        final(registry).wf(),
        same_but_tokens(*old(state), *final(state)),
        final(state).unlock_tokens == old(state).unlock_tokens,
        claiming(
            old(registry)@,
            final(registry)@,
            old(state).download_sessions@,
            final(state).download_sessions@,
            session_cookie(*headers),
            share_id@,
            expected_ip,
            tick,
            now,
            r,
        ),
{
    if let Some(token) = cookie_value(headers, "tempshare_session") {
        if let Some(at) = state.download_sessions.position(&token) {
            let session = state.download_sessions.row_at(at).clone();
            if session.expires_at > tick && same_text(session.share_id.as_str(), share_id)
                && session.client_ip == expected_ip {
                if session.counted {
                    return true;
                }
                let claimed = db::claim_download(registry, share_id, now);
                if claimed {
                    let mut counted = session;
                    counted.counted = true;
                    state.download_sessions.replace_at(at, counted);
                }
                return claimed;
            }
        }
    }
    db::claim_download(registry, share_id, now)
}

/// Whether a request belongs to a visit that was counted before.
pub fn has_counted_download_session(
    state: &AppState,
    share_id: &str,
    expected_ip: IpAddr,
    headers: &RequestHeaders,
    tick: u128,
) -> (r: bool)
    requires
        state.wf(),
    ensures
        r == counted_before(
            state.download_sessions@,
            session_cookie(*headers),
            share_id@,
            expected_ip,
            tick,
        ),
{
    match cookie_value(headers, "tempshare_session") {
        None => false,
        Some(token) => match state.download_sessions.get(&token) {
            None => false,
            Some(session) => session.counted && session.expires_at > tick && same_text(
                session.share_id.as_str(),
                share_id,
            ) && session.client_ip == expected_ip,
        },
    }
}

/// What a claim of a download did, at `now`.
pub open spec fn claiming(
    before: RegistryView,
    after: RegistryView,
    sessions: Map<Seq<char>, SessionView>,
    sessions_after: Map<Seq<char>, SessionView>,
    cookie: Option<Seq<char>>,
    id: Seq<char>,
    ip: IpAddr,
    tick: u128,
    now: i64,
    claimed: bool,
) -> bool {
    &&& claimed == granted(before, sessions, cookie, id, ip, now, tick)
    &&& after == registry_after_claim(before, sessions, cookie, id, ip, now, tick)
    &&& sessions_after == sessions_after_claim(before, sessions, cookie, id, ip, now, tick)
}

/// Claims a download for a request.
pub fn claim_download_session(
    state: &mut AppState,
    registry: &mut Registry,
    share_id: &str,
    expected_ip: IpAddr,
    headers: &RequestHeaders,
    tick: u128,
) -> (r: bool)
    requires
        old(state).wf(),
        old(registry).wf(),
        old(registry)@.shares.contains_key(share_id@)
            ==> old(registry)@.shares[share_id@].download_count < i64::MAX,
    ensures
        final(state).wf(),
        final(registry).wf(),
        same_but_tokens(*old(state), *final(state)),
        final(state).unlock_tokens == old(state).unlock_tokens,
        exists|now: i64|
            on_clock(now) && #[trigger] claiming(
                old(registry)@,
                final(registry)@,
                old(state).download_sessions@,
                final(state).download_sessions@,
                session_cookie(*headers),
                share_id@,
                expected_ip,
                tick,
                now,
                r,
            ),
{
    claim_download_session_at(state, registry, share_id, expected_ip, headers, now_ts(), tick)
}

// ---------------------------------------------------------------------------
// Downloads

/// Whether a request is let through to the file of a share, and what stands
/// against it if not: too many requests, no such share, no password.
pub open spec fn admission(
    v: RegistryView,
    tokens: Map<Seq<char>, TokenView>,
    sessions: Map<Seq<char>, SessionView>,
    within_rate: bool,
    id: Seq<char>,
    ip: IpAddr,
    headers: RequestHeaders,
    now: i64,
    tick: u128,
) -> Result<ShareView, ErrorView> {
    let counted = counted_before(sessions, session_cookie(headers), id, ip, tick);
    if !within_rate {
        Err(ErrorView::RateLimited)
    } else if !servable(v, id, counted, now) {
        Err(ErrorView::NotFound)
    } else if v.shares[id].password_hash is Some && !opens(
        tokens,
        token_carried(headers),
        id,
        ip,
        tick,
    ) {
        Err(ErrorView::PasswordRequired)
    } else {
        Ok(v.shares[id])
    }
}

/// Whether the token of a request is looked at on the way to a file.
pub open spec fn looks_at_token(
    v: RegistryView,
    sessions: Map<Seq<char>, SessionView>,
    within_rate: bool,
    id: Seq<char>,
    ip: IpAddr,
    headers: RequestHeaders,
    now: i64,
    tick: u128,
) -> bool {
    within_rate && servable(
        v,
        id,
        counted_before(sessions, session_cookie(headers), id, ip, tick),
        now,
    ) && v.shares[id].password_hash is Some
}

/// What letting a request through, or not, did at `now`.
pub open spec fn admitting(
    before: AppState,
    after: AppState,
    v: RegistryView,
    ip: IpAddr,
    id: Seq<char>,
    headers: RequestHeaders,
    tick: u128,
    now: i64,
    reply: Result<ShareView, ErrorView>,
) -> bool {
    let window = before.rate_limiter.window();
    let max = before.rate_limiter.max_requests();
    let hits = before.rate_limiter.hits();
    let within_rate = lets_in(hits, ip, tick, window, max);
    let sessions = before.download_sessions@;
    let tokens = before.unlock_tokens@;
    &&& after.config == before.config
    &&& after.public_base_url == before.public_base_url
    &&& after.tunnel_status == before.tunnel_status
    &&& after.download_sessions == before.download_sessions
    &&& after.rate_limiter.window() == window
    &&& after.rate_limiter.max_requests() == max
    &&& after.rate_limiter.hits() == hits_after(hits, ip, tick, window, max)
    &&& after.unlock_tokens@ == (if looks_at_token(
        v,
        sessions,
        within_rate,
        id,
        ip,
        headers,
        now,
        tick,
    ) {
        tokens_after_look(tokens, token_carried(headers), tick)
    } else {
        tokens
    })
    &&& reply == admission(v, tokens, sessions, within_rate, id, ip, headers, now, tick)
}

/// Lets a request through to the file of a share, at a given time.
pub fn admit_download_at(
    state: &mut AppState,
    registry: &Registry,
    ip: IpAddr,
    id: &str,
    headers: &RequestHeaders,
    now: i64,
    tick: u128,
) -> (r: Result<Share, AppError>)
    requires
        old(state).wf(),
        registry.wf(),
    ensures
        final(state).wf(),
        admitting(
            *old(state),
            *final(state),
            registry@,
            ip,
            id@,
            *headers,
            tick,
            now,
            share_outcome(r),
        ),
{
    if !state.rate_limiter.check(ip, tick) {
        return Err(AppError::RateLimited);
    }
    let continuing = has_counted_download_session(state, id, ip, headers, tick);
    let share = match load_active_share_at(registry, id, continuing, now) {
        Ok(share) => share,
        Err(e) => {
            return Err(e);
        },
    };
    if share.password_hash.is_some() && !is_unlocked(state, id, ip, headers, tick) {
        return Err(AppError::PasswordRequired);
    }
    Ok(share)
}

/// Lets a request through to the file of a share.
pub fn admit_download(
    state: &mut AppState,
    registry: &Registry,
    peer: IpAddr,
    id: &str,
    headers: &RequestHeaders,
    tick: u128,
) -> (r: Result<Share, AppError>)
    requires
        old(state).wf(),
        registry.wf(),
    ensures
        final(state).wf(),
        exists|now: i64|
            on_clock(now) && #[trigger] admitting(
                *old(state),
                *final(state),
                registry@,
                client_of(peer, headers.forwarded_ip),
                id@,
                *headers,
                tick,
                now,
                share_outcome(r),
            ),
{
    let ip = client_ip(peer, headers);
    admit_download_at(state, registry, ip, id, headers, now_ts(), tick)
}

/// The files of a folder share, and the name of the archive that is made of them.
pub struct ArchivePlan {
    pub file_name: String,
    pub entries: Vec<ShareEntry>,
}

/// The name of an archive while it is served.
pub open spec fn archive_file_name(token: Seq<char>) -> Seq<char> {
    ".archive-"@ + token + ".zip"@
}

/// The name and the files of the archive of a folder share, under a given token;
/// nothing, where the share has no files.
pub open spec fn archive_of(v: RegistryView, id: Seq<char>, token: Seq<char>) -> Option<
    (Seq<char>, Seq<EntryView>),
> {
    if entries_of(v.entries, id).len() == 0 {
        None
    } else {
        Some((archive_file_name(token), entries_of(v.entries, id)))
    }
}

/// What the archive of a folder share is made of, under a given token.
pub fn plan_archive(registry: &Registry, share_id: &str, token: &str) -> (r: Result<
    ArchivePlan,
    AppError,
>)
    ensures
        match r {
            Ok(plan) => {
                &&& entries_of(registry@.entries, share_id@).len() > 0
                &&& entry_views(plan.entries@) == entries_of(registry@.entries, share_id@)
                &&& plan.file_name@ == archive_file_name(token@)
            },
            Err(e) => {
                &&& entries_of(registry@.entries, share_id@).len() == 0
                &&& e@ == ErrorView::NotFound
            },
        },
        match r {
            Ok(plan) => archive_of(registry@, share_id@, token@) == Some(
                (plan.file_name@, entry_views(plan.entries@)),
            ),
            Err(_) => archive_of(registry@, share_id@, token@) is None,
        },
{
    let entries = db::list_share_entries(registry, share_id);
    assert(entry_views(entries@).len() == entries@.len());
    if entries.len() == 0 {
        return Err(AppError::NotFound);
    }
    let mut file_name = ".archive-".to_string();
    file_name.append(token);
    file_name.append(".zip");
    Ok(ArchivePlan { file_name, entries })
}

/// What the archive of a folder share is made of, under a fresh name.
pub fn generate_folder_archive(registry: &Registry, share_id: &str) -> (r: Result<
    ArchivePlan,
    AppError,
>)
    ensures
        match r {
            Ok(plan) => {
                &&& entries_of(registry@.entries, share_id@).len() > 0
                &&& entry_views(plan.entries@) == entries_of(registry@.entries, share_id@)
                &&& exists|token: Seq<char>|
                    is_token(token, SESSION_TOKEN_LEN as int) && plan.file_name@
                        == #[trigger] archive_file_name(token)
            },
            Err(e) => {
                &&& entries_of(registry@.entries, share_id@).len() == 0
                &&& e@ == ErrorView::NotFound
            },
        },
{
    let token = generate_session_token();
    plan_archive(registry, share_id, token.as_str())
}

/// The headers of an answer that carries bytes of a share, or none of an empty
/// one.
pub struct DownloadHead {
    pub status: u16,
    pub content_type: String,
    pub content_length: String,
    pub content_disposition: String,
    pub accept_ranges: String,
    pub cache_control: String,
    pub content_range: Option<String>,
}

/// The answer to a download.
pub enum DownloadReply {
    /// Nothing of what was asked for is there.
    NotSatisfiable { content_range: String },
    /// The file is empty.
    Empty { head: DownloadHead },
    /// The bytes from `start` on, `len` of them.
    Bytes { head: DownloadHead, start: u64, len: u64 },
}

#[verifier::ext_equal]
pub struct HeadView {
    pub status: u16,
    pub content_type: Seq<char>,
    pub content_length: Seq<char>,
    pub content_disposition: Seq<char>,
    pub accept_ranges: Seq<char>,
    pub cache_control: Seq<char>,
    pub content_range: Option<Seq<char>>,
}

pub enum ReplyView {
    NotSatisfiable { content_range: Seq<char> },
    Empty { head: HeadView },
    Bytes { head: HeadView, start: u64, len: u64 },
}

impl View for DownloadHead {
    type V = HeadView;

    open spec fn view(&self) -> HeadView {
        HeadView {
            status: self.status,
            content_type: self.content_type@,
            content_length: self.content_length@,
            content_disposition: self.content_disposition@,
            accept_ranges: self.accept_ranges@,
            cache_control: self.cache_control@,
            content_range: db::opt_view(self.content_range),
        }
    }
}

impl View for DownloadReply {
    type V = ReplyView;

    open spec fn view(&self) -> ReplyView {
        match *self {
            DownloadReply::NotSatisfiable { content_range } => ReplyView::NotSatisfiable {
                content_range: content_range@,
            },
            DownloadReply::Empty { head } => ReplyView::Empty { head: head@ },
            DownloadReply::Bytes { head, start, len } => ReplyView::Bytes {
                head: head@,
                start: start,
                len: len,
            },
        }
    }
}

/// The media type of what is sent.
pub open spec fn media_type(is_folder: bool) -> Seq<char> {
    if is_folder {
        "application/zip"@
    } else {
        "application/octet-stream"@
    }
}

/// The headers of an answer that carries `len` bytes, as a part of the file where
/// there is a range.
pub open spec fn head_view(
    name: Seq<char>,
    is_folder: bool,
    len: nat,
    range: Option<Seq<char>>,
) -> HeadView {
    HeadView {
        status: if range is Some {
            206
        } else {
            200
        },
        content_type: media_type(is_folder),
        content_length: decimal(len),
        content_disposition: disposition(name),
        accept_ranges: "bytes"@,
        cache_control: "no-store"@,
        content_range: range,
    }
}

/// The answer to a download of a file of `file_len` bytes, once it is granted.
pub open spec fn planned(
    name: Seq<char>,
    is_folder: bool,
    range: Option<Vec<u8>>,
    file_len: u64,
) -> ReplyView {
    match range {
        None => if file_len == 0 {
            ReplyView::Empty { head: head_view(name, is_folder, 0, None) }
        } else {
            ReplyView::Bytes {
                head: head_view(name, is_folder, file_len as nat, None),
                start: 0,
                len: file_len,
            }
        },
        Some(value) => match header_chars(value@) {
            None => ReplyView::NotSatisfiable { content_range: unsatisfied_range(file_len as int) },
            Some(text) => match range_of(text, file_len) {
                None => ReplyView::NotSatisfiable {
                    content_range: unsatisfied_range(file_len as int),
                },
                Some((a, b)) => ReplyView::Bytes {
                    head: head_view(
                        name,
                        is_folder,
                        (b - a + 1) as nat,
                        Some(content_range(a, b, file_len as int)),
                    ),
                    start: a as u64,
                    len: (b - a + 1) as u64,
                },
            },
        },
    }
}

/// The answer where nothing of what was asked for is there.
pub fn range_not_satisfiable(file_len: u64) -> (r: DownloadReply)
    ensures
        r@ == (ReplyView::NotSatisfiable { content_range: unsatisfied_range(file_len as int) }),
{
    let mut content_range = "bytes */".to_string();
    content_range.append(decimal_text(file_len).as_str());
    DownloadReply::NotSatisfiable { content_range }
}

fn write_head(name: &str, is_folder: bool, len: u64, range: Option<String>) -> (r: DownloadHead)
    ensures
        r@ == head_view(name@, is_folder, len as nat, db::opt_view(range)),
{
    DownloadHead {
        status: if range.is_some() {
            206
        } else {
            200
        },
        content_type: if is_folder {
            "application/zip".to_string()
        } else {
            "application/octet-stream".to_string()
        },
        content_length: decimal_text(len),
        content_disposition: content_disposition(name),
        accept_ranges: "bytes".to_string(),
        cache_control: "no-store".to_string(),
        content_range: range,
    }
}

/// The answer where the file is empty.
pub fn empty_file_response(display_name: &str, is_folder: bool) -> (r: DownloadReply)
    ensures
        r@ == (ReplyView::Empty { head: head_view(display_name@, is_folder, 0, None) }),
{
    DownloadReply::Empty { head: write_head(display_name, is_folder, 0, None) }
}

fn write_content_range(a: u64, b: u64, len: u64) -> (r: String)
    ensures
        r@ == content_range(a as int, b as int, len as int),
{
    let mut out = "bytes ".to_string();
    out.append(decimal_text(a).as_str());
    out.append("-");
    out.append(decimal_text(b).as_str());
    out.append("/");
    out.append(decimal_text(len).as_str());
    out
}

/// The answer to a download of a file of `file_len` bytes, once it is granted.
pub fn plan_download(
    display_name: &str,
    is_folder: bool,
    range: &Option<Vec<u8>>,
    file_len: u64,
) -> (r: DownloadReply)
    ensures
        r@ == planned(display_name@, is_folder, *range, file_len),
{
    if range.is_none() {
        if file_len == 0 {
            return empty_file_response(display_name, is_folder);
        }
        return DownloadReply::Bytes {
            head: write_head(display_name, is_folder, file_len, None),
            start: 0,
            len: file_len,
        };
    }
    let text = match header_text(range) {
        Some(text) => text,
        None => {
            return range_not_satisfiable(file_len);
        },
    };
    proof {
        law_range_lies_in_file(text@, file_len);
    }
    match parse_range_chars(text.as_slice(), file_len) {
        None => range_not_satisfiable(file_len),
        Some((a, b)) => {
            let len: u64 = b - a + 1;
            let range = write_content_range(a, b, file_len);
            DownloadReply::Bytes {
                head: write_head(display_name, is_folder, len, Some(range)),
                start: a,
                len,
            }
        },
    }
}

/// The answer to a download that was let through: where something of what was
/// asked for is there, the download is claimed first.
pub open spec fn download_answer(
    v: RegistryView,
    sessions: Map<Seq<char>, SessionView>,
    share: ShareView,
    id: Seq<char>,
    ip: IpAddr,
    headers: RequestHeaders,
    file_len: u64,
    now: i64,
    tick: u128,
) -> Result<ReplyView, ErrorView> {
    let reply = planned(share.display_name, share.is_folder, headers.range, file_len);
    if reply is NotSatisfiable || granted(
        v,
        sessions,
        session_cookie(headers),
        id,
        ip,
        now,
        tick,
    ) {
        Ok(reply)
    } else {
        Err(ErrorView::NotFound)
    }
}

/// An answer to a download, by what it stands for.
pub open spec fn reply_outcome(r: Result<DownloadReply, AppError>) -> Result<ReplyView, ErrorView> {
    match r {
        Ok(reply) => Ok(reply@),
        Err(e) => Err(e@),
    }
}

/// What answering a download did at `now`.
pub open spec fn downloading(
    before: AppState,
    after: AppState,
    v: RegistryView,
    v_after: RegistryView,
    share: ShareView,
    ip: IpAddr,
    id: Seq<char>,
    headers: RequestHeaders,
    file_len: u64,
    tick: u128,
    now: i64,
    reply: Result<ReplyView, ErrorView>,
) -> bool {
    let sessions = before.download_sessions@;
    &&& same_but_tokens(before, after)
    &&& after.unlock_tokens == before.unlock_tokens
    &&& reply == download_answer(v, sessions, share, id, ip, headers, file_len, now, tick)
    &&& if planned(share.display_name, share.is_folder, headers.range, file_len) is NotSatisfiable {
        v_after == v && after.download_sessions == before.download_sessions
    } else {
        claiming(
            v,
            v_after,
            sessions,
            after.download_sessions@,
            session_cookie(headers),
            id,
            ip,
            tick,
            now,
            reply is Ok,
        )
    }
}

/// Answers a download that was let through, at a given time: `file_len` is the
/// length of the file, or of the archive that was made.
pub fn download_at(
    state: &mut AppState,
    registry: &mut Registry,
    share: &Share,
    ip: IpAddr,
    id: &str,
    headers: &RequestHeaders,
    file_len: u64,
    now: i64,
    tick: u128,
) -> (r: Result<DownloadReply, AppError>)
    requires
        old(state).wf(),
        old(registry).wf(),
        old(registry)@.claimable(id@, now) ==> old(registry)@.shares[id@].download_count < i64::MAX,
    ensures
        final(state).wf(),
        final(registry).wf(),
        downloading(
            *old(state),
            *final(state),
            old(registry)@,
            final(registry)@,
            share@,
            ip,
            id@,
            *headers,
            file_len,
            tick,
            now,
            reply_outcome(r),
        ),
{
    let reply = plan_download(
        share.display_name.as_str(),
        share.is_folder,
        &headers.range,
        file_len,
    );
    if let DownloadReply::NotSatisfiable { .. } = reply {
        return Ok(reply);
    }
    if claim_download_session_at(state, registry, id, ip, headers, now, tick) {
        Ok(reply)
    } else {
        Err(AppError::NotFound)
    }
}

/// Answers a download that was let through: `file_len` is the length of the file,
/// or of the archive that was made.
pub fn download(
    state: &mut AppState,
    registry: &mut Registry,
    share: &Share,
    peer: IpAddr,
    id: &str,
    headers: &RequestHeaders,
    file_len: u64,
    tick: u128,
) -> (r: Result<DownloadReply, AppError>)
    requires
        old(state).wf(),
        old(registry).wf(),
        old(registry)@.shares.contains_key(id@) ==> old(registry)@.shares[id@].download_count
            < i64::MAX,
    ensures
        final(state).wf(),
        final(registry).wf(),
        exists|now: i64|
            on_clock(now) && #[trigger] downloading(
                *old(state),
                *final(state),
                old(registry)@,
                final(registry)@,
                share@,
                client_of(peer, headers.forwarded_ip),
                id@,
                *headers,
                file_len,
                tick,
                now,
                reply_outcome(r),
            ),
{
    let ip = client_ip(peer, headers);
    download_at(state, registry, share, ip, id, headers, file_len, now_ts(), tick)
}

// ---------------------------------------------------------------------------
// What is recorded of a download

/// How far the bytes of an answer have got to the client.
pub struct Accounting {
    pub share_id: String,
    pub client_ip: IpAddr,
    pub expected_bytes: u64,
    pub transferred: u64,
    pub recorded: bool,
}

#[verifier::ext_equal]
pub struct AccountingView {
    pub share_id: Seq<char>,
    pub client_ip: IpAddr,
    pub expected_bytes: u64,
    pub transferred: u64,
    pub recorded: bool,
}

impl View for Accounting {
    type V = AccountingView;

    open spec fn view(&self) -> AccountingView {
        AccountingView {
            share_id: self.share_id@,
            client_ip: self.client_ip,
            expected_bytes: self.expected_bytes,
            transferred: self.transferred,
            recorded: self.recorded,
        }
    }
}

/// What happens to the stream of bytes of an answer.
pub enum StreamEvent {
    /// That many bytes went out.
    Sent(usize),
    /// The file could not be read on.
    Failed,
    /// There are no more bytes.
    Ended,
    /// The client is gone, or everything is done.
    Dropped,
}

impl AccountingView {
    pub open spec fn new(share_id: Seq<char>, client_ip: IpAddr, expected: u64) -> AccountingView {
        AccountingView {
            share_id: share_id,
            client_ip: client_ip,
            expected_bytes: expected,
            transferred: 0,
            recorded: false,
        }
    }

    /// What is recorded: nothing, where something was recorded before.
    pub open spec fn record(self, completed: bool, now: i64) -> Option<EventView> {
        if self.recorded {
            None
        } else {
            Some(
                EventView {
                    share_id: self.share_id,
                    ip: self.client_ip,
                    timestamp: now,
                    bytes_transferred: if self.transferred <= i64::MAX {
                        self.transferred as i64
                    } else {
                        i64::MAX
                    },
                    completed: completed,
                },
            )
        }
    }

    /// What is recorded when something happens to the stream. A download is
    /// complete where the stream ends after as many bytes as were promised.
    pub open spec fn recorded_on(self, event: StreamEvent, now: i64) -> Option<EventView> {
        match event {
            StreamEvent::Sent(_) => None,
            StreamEvent::Ended => self.record(self.transferred == self.expected_bytes, now),
            StreamEvent::Failed => self.record(false, now),
            StreamEvent::Dropped => self.record(false, now),
        }
    }

    /// How far the answer has got after something happened to the stream.
    pub open spec fn after(self, event: StreamEvent) -> AccountingView {
        match event {
            StreamEvent::Sent(n) => AccountingView {
                transferred: if self.transferred + n <= u64::MAX {
                    (self.transferred + n) as u64
                } else {
                    u64::MAX
                },
                ..self
            },
            _ => AccountingView { recorded: true, ..self },
        }
    }
}

/// An event that may be missing, by what it stands for.
pub open spec fn opt_event(e: Option<DownloadEvent>) -> Option<EventView> {
    match e {
        Some(e) => Some(e@),
        None => None,
    }
}

impl Accounting {
    pub fn new(share_id: String, client_ip: IpAddr, expected_bytes: u64) -> (r: Accounting)
        ensures
            r@ == AccountingView::new(share_id@, client_ip, expected_bytes),
    {
        Accounting { share_id, client_ip, expected_bytes, transferred: 0, recorded: false }
    }

    /// The event to record, unless one was recorded before.
    pub fn record_at(&mut self, completed: bool, now: i64) -> (r: Option<DownloadEvent>)
        ensures
            opt_event(r) == old(self)@.record(completed, now),
            final(self)@ == (AccountingView { recorded: true, ..old(self)@ }),
    {
        if self.recorded {
            return None;
        }
        self.recorded = true;
        let bytes: i64 = if self.transferred <= i64::MAX as u64 {
            self.transferred as i64
        } else {
            i64::MAX
        };
        Some(
            DownloadEvent {
                share_id: self.share_id.clone(),
                ip: self.client_ip,
                timestamp: now,
                bytes_transferred: bytes,
                completed,
            },
        )
    }

    /// Takes note of what happened to the stream, at a given time, and returns
    /// the event to record, if there is one.
    pub fn note_at(&mut self, event: StreamEvent, now: i64) -> (r: Option<DownloadEvent>)
        ensures
            opt_event(r) == old(self)@.recorded_on(event, now),
            final(self)@ == old(self)@.after(event),
    {
        match event {
            StreamEvent::Sent(n) => {
                let sum: u128 = (self.transferred as u128) + (n as u128);
                self.transferred = if sum <= u64::MAX as u128 {
                    sum as u64
                } else {
                    u64::MAX
                };
                None
            },
            StreamEvent::Ended => {
                let completed = self.transferred == self.expected_bytes;
                self.record_at(completed, now)
            },
            StreamEvent::Failed => self.record_at(false, now),
            StreamEvent::Dropped => self.record_at(false, now),
        }
    }

    /// Takes note of what happened to the stream, and returns the event to record,
    /// if there is one.
    pub fn note(&mut self, event: StreamEvent) -> (r: Option<DownloadEvent>)
        ensures
            exists|now: i64|
                on_clock(now) && opt_event(r) == #[trigger] old(self)@.recorded_on(event, now),
            final(self)@ == old(self)@.after(event),
    {
        self.note_at(event, now_ts())
    }
}

// ---------------------------------------------------------------------------
// What a recipient is shown

/// How long a visit is kept open, in seconds.
pub const SESSION_SECS: u64 = 86_400;

/// The page of a share, with the cookie that opens a visit and the policies that
/// the page is under.
pub struct PageReply {
    pub html: String,
    pub cookie: String,
    pub content_security_policy: String,
    pub referrer_policy: String,
    pub content_type_options: String,
}

#[verifier::ext_equal]
pub struct PageView {
    pub html: Seq<char>,
    pub cookie: Seq<char>,
    pub content_security_policy: Seq<char>,
    pub referrer_policy: Seq<char>,
    pub content_type_options: Seq<char>,
}

impl View for PageReply {
    type V = PageView;

    open spec fn view(&self) -> PageView {
        PageView {
            html: self.html@,
            cookie: self.cookie@,
            content_security_policy: self.content_security_policy@,
            referrer_policy: self.referrer_policy@,
            content_type_options: self.content_type_options@,
        }
    }
}

/// A page that may be refused, by what it stands for.
pub open spec fn page_outcome(r: Result<PageReply, AppError>) -> Result<PageView, ErrorView> {
    match r {
        Ok(p) => Ok(p@),
        Err(e) => Err(e@),
    }
}

/// The answer to a recipient who opens the link of a share.
pub open spec fn page_answer(
    v: RegistryView,
    id: Seq<char>,
    token: Seq<char>,
    now: i64,
) -> Result<PageView, ErrorView> {
    let cookie = cookie_text("tempshare_session"@, token, id, SESSION_SECS as nat);
    match loaded(v, id, false, now) {
        Err(e) => Err(e),
        Ok(s) => if can_be_header(cookie) {
            Ok(
                PageView {
                    html: page(s.id, s.display_name, s.size_bytes, s.password_hash is Some),
                    cookie: cookie,
                    content_security_policy: CONTENT_SECURITY_POLICY@,
                    referrer_policy: "no-referrer"@,
                    content_type_options: "nosniff"@,
                },
            )
        } else {
            Err(ErrorView::Internal("cookie is no header value"@))
        },
    }
}

/// The sessions after a recipient opened the link of a share: a visit is open.
pub open spec fn sessions_after_page(
    v: RegistryView,
    sessions: Map<Seq<char>, SessionView>,
    id: Seq<char>,
    ip: IpAddr,
    token: Seq<char>,
    now: i64,
    tick: u128,
) -> Map<Seq<char>, SessionView> {
    if servable(v, id, false, now) {
        sessions.insert(
            token,
            SessionView {
                share_id: id,
                client_ip: ip,
                expires_at: after_secs(tick, SESSION_SECS) as u128,
                counted: false,
            },
        )
    } else {
        sessions
    }
}

/// What opening the link of a share did, at `now` and with `token`.
pub open spec fn visiting(
    before: AppState,
    after: AppState,
    v: RegistryView,
    ip: IpAddr,
    id: Seq<char>,
    tick: u128,
    token: Seq<char>,
    now: i64,
    reply: Result<PageView, ErrorView>,
) -> bool {
    &&& same_but_tokens(before, after)
    &&& after.unlock_tokens == before.unlock_tokens
    &&& after.download_sessions@ == sessions_after_page(
        v,
        before.download_sessions@,
        id,
        ip,
        token,
        now,
        tick,
    )
    &&& reply == page_answer(v, id, token, now)
}

/// The page of a share, at a given time, with a visit opened under `token`.
pub fn share_page_at(
    state: &mut AppState,
    registry: &Registry,
    ip: IpAddr,
    id: &str,
    token: String,
    now: i64,
    tick: u128,
) -> (r: Result<PageReply, AppError>)
    requires
        old(state).wf(),
        registry.wf(),
        after_secs(tick, SESSION_SECS) <= u128::MAX,
    ensures
        final(state).wf(),
        visiting(
            *old(state),
            *final(state),
            registry@,
            ip,
            id@,
            tick,
            token@,
            now,
            page_outcome(r),
        ),
{
    let share = match load_active_share_at(registry, id, false, now) {
        Ok(share) => share,
        Err(e) => {
            return Err(e);
        },
    };
    let cookie = write_cookie("tempshare_session", token.as_str(), id, SESSION_SECS);
    state.download_sessions.insert(
        token,
        DownloadSession {
            share_id: id.to_string(),
            client_ip: ip,
            expires_at: add_secs(tick, SESSION_SECS),
            counted: false,
        },
    );
    let html = match render_page(
        share.id.as_str(),
        share.display_name.as_str(),
        share.size_bytes,
        share.password_hash.is_some(),
    ) {
        Ok(html) => html,
        Err(e) => {
            return Err(e);
        },
    };
    if !fits_header(cookie.as_str()) {
        return Err(AppError::Internal("cookie is no header value".to_string()));
    }
    Ok(
        PageReply {
            html,
            cookie,
            content_security_policy: CONTENT_SECURITY_POLICY.to_string(),
            referrer_policy: "no-referrer".to_string(),
            content_type_options: "nosniff".to_string(),
        },
    )
}

/// The page of a share, with a visit opened for the recipient.
pub fn share_page(
    state: &mut AppState,
    registry: &Registry,
    peer: IpAddr,
    id: &str,
    headers: &RequestHeaders,
    tick: u128,
) -> (r: Result<PageReply, AppError>)
    requires
        old(state).wf(),
        registry.wf(),
        after_secs(tick, SESSION_SECS) <= u128::MAX,
    ensures
        final(state).wf(),
        exists|token: Seq<char>, now: i64|
            is_token(token, SESSION_TOKEN_LEN as int) && on_clock(now) && #[trigger] visiting(
                *old(state),
                *final(state),
                registry@,
                client_of(peer, headers.forwarded_ip),
                id@,
                tick,
                token,
                now,
                page_outcome(r),
            ),
{
    let ip = client_ip(peer, headers);
    let token = generate_session_token();
    share_page_at(state, registry, ip, id, token, now_ts(), tick)
}

/// What a recipient may know of a share before downloading it.
pub struct ShareInfo {
    pub id: String,
    pub display_name: String,
    pub size_bytes: i64,
    pub requires_password: bool,
}

#[verifier::ext_equal]
pub struct InfoView {
    pub id: Seq<char>,
    pub display_name: Seq<char>,
    pub size_bytes: i64,
    pub requires_password: bool,
}

impl View for ShareInfo {
    type V = InfoView;

    open spec fn view(&self) -> InfoView {
        InfoView {
            id: self.id@,
            display_name: self.display_name@,
            size_bytes: self.size_bytes,
            requires_password: self.requires_password,
        }
    }
}

/// What a recipient is told of a share.
pub open spec fn info(v: RegistryView, id: Seq<char>, now: i64) -> Result<InfoView, ErrorView> {
    match loaded(v, id, false, now) {
        Err(e) => Err(e),
        Ok(s) => Ok(
            InfoView {
                id: s.id,
                display_name: s.display_name,
                size_bytes: s.size_bytes,
                requires_password: s.password_hash is Some,
            },
        ),
    }
}

/// What a recipient is told, by what it stands for.
pub open spec fn info_outcome(r: Result<ShareInfo, AppError>) -> Result<InfoView, ErrorView> {
    match r {
        Ok(i) => Ok(i@),
        Err(e) => Err(e@),
    }
}

/// What a recipient is told of a share, at a given time.
pub fn share_info_at(registry: &Registry, id: &str, now: i64) -> (r: Result<ShareInfo, AppError>)
    requires
        registry.wf(),
    ensures
        info_outcome(r) == info(registry@, id@, now),
{
    match load_active_share_at(registry, id, false, now) {
        Ok(share) => Ok(
            ShareInfo {
                requires_password: share.password_hash.is_some(),
                id: share.id,
                display_name: share.display_name,
                size_bytes: share.size_bytes,
            },
        ),
        Err(e) => Err(e),
    }
}

/// What a recipient is told of a share.
pub fn share_info(registry: &Registry, id: &str) -> (r: Result<ShareInfo, AppError>)
    requires
        registry.wf(),
    ensures
        exists|now: i64| on_clock(now) && info_outcome(r) == #[trigger] info(registry@, id@, now),
{
    share_info_at(registry, id, now_ts())
}

} // verus!
