//! What recipients get: answers stated by what was asked and by what the rows say.

use crate::db::{entries_of, failures_since, FailureView, RegistryView, ShareView};
use crate::download::{
    admission, admitting, after_secs, archive_file_name, archive_of, claiming, client_of, cookie_text,
    counted_before, downloading, info, loaded, opens, planned, same_but_tokens, session_cookie,
    session_of, token_carried, tokens_after_look, unlock_gate, unlocking, verdict, verdict_given,
    visiting, InfoView, PageView, ReplyView, UnlockView, Verdict,
};
use crate::error::ErrorView;
use crate::headers::{
    can_be_header, cookie_of, disposition, header_chars, header_of, law_range_lies_in_file,
    law_resumed_download_is_whole, range_of, RequestHeaders,
};
use crate::net::IpAddr;
use crate::page::page;
use crate::state::{live_sessions, live_tokens, AppState, SessionView, TokenView};
use crate::text::{
    decimal, has_prefix, has_suffix, is_alphanumeric, is_digit, lemma_decimal_reads_back,
};
use vstd::prelude::*;

verus! {

// ---------------------------------------------------------------------------
// Passwords

/// Of a share that can be had and has a password, with fewer recent failures than
/// are allowed, the password decides and nothing else: accepted is right, not
/// accepted is wrong, whatever the count, the age or the name of the share.
pub proof fn law_password_alone_decides(
    v: RegistryView,
    id: Seq<char>,
    ip: IpAddr,
    password: Seq<char>,
    max: i64,
    window: i64,
    now: i64,
)
    requires
        v.shares.contains_key(id),
        v.shares[id].status == "active"@,
        v.shares[id].expires_at is None || now < v.shares[id].expires_at->0,
        v.shares[id].max_downloads is None || v.shares[id].download_count
            < v.shares[id].max_downloads->0,
        v.shares[id].password_hash is Some,
        failures_since(v.failures, id, ip, (now - window) as i64) < max,
    ensures
        verdict(v, id, ip, password, max, window, now) is Right <==> (crate::auth::argon2_accepts(
            password,
            v.shares[id].password_hash->0,
        ) && !crate::auth::too_many_lanes(v.shares[id].password_hash->0)),
        verdict(v, id, ip, password, max, window, now) is Right || verdict(
            v,
            id,
            ip,
            password,
            max,
            window,
            now,
        ) is Wrong,
        forall|accepted: bool|
            (#[trigger] verdict_given(v, id, ip, accepted, max, window, now)) == if accepted {
                Verdict::Right
            } else {
                Verdict::Wrong
            },
        unlock_gate(v, id, ip, max, window, now) == Ok::<Option<Seq<char>>, ErrorView>(
            v.shares[id].password_hash,
        ),
{
}

/// Two shares that can both be had and keep the same text of a password answer the
/// same to every attempt, however they differ otherwise: in their names, their sizes,
/// their ages, their limits or in how often they were downloaded.
pub proof fn law_verdict_ignores_the_rest(
    v: RegistryView,
    other: ShareView,
    id: Seq<char>,
    ip: IpAddr,
    password: Seq<char>,
    max: i64,
    window: i64,
    now: i64,
)
    requires
        v.shares.contains_key(id),
        v.shares[id].status == "active"@ && other.status == "active"@,
        v.shares[id].expires_at is None || now < v.shares[id].expires_at->0,
        other.expires_at is None || now < other.expires_at->0,
        v.shares[id].max_downloads is None || v.shares[id].download_count
            < v.shares[id].max_downloads->0,
        other.max_downloads is None || other.download_count < other.max_downloads->0,
        other.password_hash == v.shares[id].password_hash,
    ensures
        ({
            let w = RegistryView { shares: v.shares.insert(id, other), ..v };
            verdict(w, id, ip, password, max, window, now) == verdict(
                v,
                id,
                ip,
                password,
                max,
                window,
                now,
            )
        }),
{
}

/// When there is nothing to look at: the share cannot be had, it has no password,
/// or too many attempts have failed. Nothing else stands before the password.
pub proof fn law_what_stands_before_a_password(
    v: RegistryView,
    id: Seq<char>,
    ip: IpAddr,
    password: Seq<char>,
    max: i64,
    window: i64,
    now: i64,
)
    ensures
        ({
            let there = v.shares.contains_key(id) && v.shares[id].status == "active"@ && (
            v.shares[id].expires_at is None || now < v.shares[id].expires_at->0) && (
            v.shares[id].max_downloads is None || v.shares[id].download_count
                < v.shares[id].max_downloads->0);
            let locked = there && v.shares[id].password_hash is Some;
            let failed = failures_since(v.failures, id, ip, (now - window) as i64) >= max;
            let verdict = verdict(v, id, ip, password, max, window, now);
            let gate = unlock_gate(v, id, ip, max, window, now);
            &&& verdict is NotFound <==> !there
            &&& verdict is Open <==> there && !locked
            &&& verdict is Limited <==> locked && failed
            &&& gate == Err::<Option<Seq<char>>, ErrorView>(ErrorView::NotFound) <==> !there
            &&& gate == Err::<Option<Seq<char>>, ErrorView>(ErrorView::RateLimited) <==> locked
                && failed
            &&& gate == Ok::<Option<Seq<char>>, ErrorView>(None) <==> there && !locked
        }),
{
}

/// Failed attempts are counted by share, by address and by time, each once.
pub proof fn law_failures_are_counted_one_by_one(
    failures: Seq<FailureView>,
    f: FailureView,
    id: Seq<char>,
    ip: IpAddr,
    since: i64,
)
    ensures
        failures_since(Seq::empty(), id, ip, since) == 0,
        failures_since(failures.push(f), id, ip, since) == failures_since(failures, id, ip, since)
            + if f.share_id == id && f.ip == ip && f.timestamp >= since {
            1nat
        } else {
            0
        },
{
    let late = |f: FailureView| f.share_id == id && f.ip == ip && f.timestamp >= since;
    crate::laws::filters::lemma_filter_none(Seq::<FailureView>::empty(), late);
    crate::laws::filters::lemma_filter_push(failures, f, late);
}

proof fn lemma_plain_cookie(name: Seq<char>, token: Seq<char>, id: Seq<char>, max_age: nat)
    requires
        forall|i: int| 0 <= i < name.len() ==> ' ' <= #[trigger] name[i] <= '~',
        forall|i: int| 0 <= i < token.len() ==> is_alphanumeric(#[trigger] token[i]),
        forall|i: int| 0 <= i < id.len() ==> is_alphanumeric(#[trigger] id[i]),
    ensures
        can_be_header(cookie_text(name, token, id, max_age)),
{
    reveal_strlit("=");
    reveal_strlit("; Path=/download/");
    reveal_strlit("; Max-Age=");
    reveal_strlit("; HttpOnly; Secure; SameSite=Strict");
    lemma_decimal_reads_back(max_age);
    let d = decimal(max_age);
    let c1 = name + "="@;
    let c2 = c1 + token;
    let c3 = c2 + "; Path=/download/"@;
    let c4 = c3 + id;
    let c5 = c4 + "; Max-Age="@;
    let c6 = c5 + d;
    let c7 = c6 + "; HttpOnly; Secure; SameSite=Strict"@;
    assert forall|i: int| 0 <= i < c7.len() implies ' ' <= #[trigger] c7[i] <= '~' by {
        if i < name.len() {
            assert(c7[i] == name[i]);
        } else if i < c1.len() {
        } else if i < c2.len() {
            assert(c7[i] == token[i - c1.len()]);
        } else if i < c3.len() {
            assert(c7[i] == "; Path=/download/"@[i - c2.len()]);
        } else if i < c4.len() {
            assert(c7[i] == id[i - c3.len()]);
        } else if i < c5.len() {
            assert(c7[i] == "; Max-Age="@[i - c4.len()]);
        } else if i < c6.len() {
            assert(c7[i] == d[i - c5.len()]);
            assert(is_digit(d[i - c5.len()]));
        } else {
            assert(c7[i] == "; HttpOnly; Secure; SameSite=Strict"@[i - c6.len()]);
        }
    }
    assert(c7 == cookie_text(name, token, id, max_age));
}

/// The cookies of this server can stand in a header where the id of the share and the
/// token are letters and digits, as they are where this server made them.
pub proof fn law_cookies_stand_in_a_header(token: Seq<char>, id: Seq<char>, max_age: nat)
    requires
        forall|i: int| 0 <= i < token.len() ==> is_alphanumeric(#[trigger] token[i]),
        forall|i: int| 0 <= i < id.len() ==> is_alphanumeric(#[trigger] id[i]),
    ensures
        can_be_header(cookie_text("tempshare_unlock"@, token, id, max_age)),
        can_be_header(cookie_text("tempshare_session"@, token, id, max_age)),
{
    reveal_strlit("tempshare_unlock");
    reveal_strlit("tempshare_session");
    lemma_plain_cookie("tempshare_unlock"@, token, id, max_age);
    lemma_plain_cookie("tempshare_session"@, token, id, max_age);
}

/// Whoever gives the password that is accepted gets the token and the cookie that
/// carries it, for the downloads of this share and for as long as the token is
/// good. No failure is recorded, and the token is noted for the share, the address
/// and the time.
pub proof fn law_accepted_password_gets_the_token(
    v: RegistryView,
    after: RegistryView,
    tokens: Map<Seq<char>, TokenView>,
    tokens_after: Map<Seq<char>, TokenView>,
    id: Seq<char>,
    ip: IpAddr,
    password: Seq<char>,
    max: i64,
    window: i64,
    ttl: u64,
    tick: u128,
    token: Seq<char>,
    now: i64,
    reply: Result<UnlockView, ErrorView>,
)
    requires
        unlocking(
            v,
            after,
            tokens,
            tokens_after,
            id,
            ip,
            password,
            max,
            window,
            ttl,
            tick,
            token,
            now,
            reply,
        ),
        v.shares.contains_key(id),
        v.shares[id].status == "active"@,
        v.shares[id].expires_at is None || now < v.shares[id].expires_at->0,
        v.shares[id].max_downloads is None || v.shares[id].download_count
            < v.shares[id].max_downloads->0,
        v.shares[id].password_hash is Some,
        failures_since(v.failures, id, ip, (now - window) as i64) < max,
        crate::auth::argon2_accepts(password, v.shares[id].password_hash->0),
        !crate::auth::too_many_lanes(v.shares[id].password_hash->0),
    ensures
        ({
            let cookie = "tempshare_unlock="@ + token + "; Path=/download/"@ + id + "; Max-Age="@
                + decimal(ttl as nat) + "; HttpOnly; Secure; SameSite=Strict"@;
            reply == if can_be_header(cookie) {
                Ok::<UnlockView, ErrorView>(
                    UnlockView { token: Some(token), cookie: Some(cookie) },
                )
            } else {
                Err(ErrorView::Internal("cookie is no header value"@))
            }
        }),
        after == v,
        tokens_after == tokens.insert(
            token,
            TokenView {
                share_id: id,
                client_ip: ip,
                expires_at: (tick + ttl * 1_000_000_000) as u128,
            },
        ),
{
    reveal_strlit("tempshare_unlock");
    reveal_strlit("tempshare_unlock=");
    reveal_strlit("=");
    assert("tempshare_unlock"@ + "="@ =~= "tempshare_unlock="@);
}

/// Whoever does not gets nothing, and only a wrong password leaves a trace: one
/// failure, of this share, from this address, at this time. Where no more failures
/// can be recorded, a wrong password is not answered as such.
pub proof fn law_refused_unlock_gives_nothing(
    v: RegistryView,
    after: RegistryView,
    tokens: Map<Seq<char>, TokenView>,
    tokens_after: Map<Seq<char>, TokenView>,
    id: Seq<char>,
    ip: IpAddr,
    password: Seq<char>,
    max: i64,
    window: i64,
    ttl: u64,
    tick: u128,
    token: Seq<char>,
    now: i64,
    reply: Result<UnlockView, ErrorView>,
)
    requires
        unlocking(
            v,
            after,
            tokens,
            tokens_after,
            id,
            ip,
            password,
            max,
            window,
            ttl,
            tick,
            token,
            now,
            reply,
        ),
    ensures
        ({
            let there = v.shares.contains_key(id) && v.shares[id].status == "active"@ && (
            v.shares[id].expires_at is None || now < v.shares[id].expires_at->0) && (
            v.shares[id].max_downloads is None || v.shares[id].download_count
                < v.shares[id].max_downloads->0);
            let failed = failures_since(v.failures, id, ip, (now - window) as i64) >= max;
            let accepted = crate::auth::argon2_accepts(password, v.shares[id].password_hash->0)
                && !crate::auth::too_many_lanes(v.shares[id].password_hash->0);
            if !there {
                reply == Err::<UnlockView, ErrorView>(ErrorView::NotFound) && after == v
                    && tokens_after == tokens
            } else if v.shares[id].password_hash is None {
                reply == Ok::<UnlockView, ErrorView>(UnlockView { token: None, cookie: None })
                    && after == v && tokens_after == tokens
            } else if failed {
                reply == Err::<UnlockView, ErrorView>(ErrorView::RateLimited) && after == v
                    && tokens_after == tokens
            } else if !accepted && v.failures.len() < i64::MAX {
                reply == Err::<UnlockView, ErrorView>(ErrorView::IncorrectPassword) && after == (
                RegistryView {
                    failures: v.failures.push(
                        FailureView { share_id: id, ip: ip, timestamp: now },
                    ),
                    ..v
                }) && tokens_after == tokens
            } else if !accepted {
                reply == Err::<UnlockView, ErrorView>(
                    ErrorView::Internal("failed attempt could not be recorded"@),
                ) && after == v && tokens_after == tokens
            } else {
                after == v
            }
        }),
{
}

// ---------------------------------------------------------------------------
// Tokens and visits

/// A token opens a share if and only if it is one that was noted, its time is not
/// over, and it was noted for this share and this address.
pub proof fn law_token_opens(
    tokens: Map<Seq<char>, TokenView>,
    token: Option<Seq<char>>,
    id: Seq<char>,
    ip: IpAddr,
    tick: u128,
)
    ensures
        opens(tokens, token, id, ip, tick) <==> token is Some && tokens.contains_key(token->0)
            && tick < tokens[token->0].expires_at && tokens[token->0].share_id == id
            && tokens[token->0].client_ip == ip,
{
}

/// Showing a token takes away nothing but that token, and that only where its time
/// is over.
pub proof fn law_shown_token_is_kept_while_good(
    tokens: Map<Seq<char>, TokenView>,
    token: Option<Seq<char>>,
    tick: u128,
    t: Seq<char>,
)
    ensures
        tokens_after_look(tokens, token, tick).contains_key(t) <==> tokens.contains_key(t) && !(
        token == Some(t) && tokens[t].expires_at <= tick),
        tokens_after_look(tokens, token, tick).contains_key(t) ==> tokens_after_look(
            tokens,
            token,
            tick,
        )[t] == tokens[t],
{
}

/// The token of a request is what its own header says, or else its cookie.
pub proof fn law_token_of_a_request(headers: RequestHeaders)
    ensures
        header_of(headers.unlock_token) is Some ==> token_carried(headers) == header_of(
            headers.unlock_token,
        ),
        header_of(headers.unlock_token) is None ==> token_carried(headers) == cookie_of(
            headers.cookie,
            "tempshare_unlock"@,
        ),
        session_cookie(headers) == cookie_of(headers.cookie, "tempshare_session"@),
{
}

/// A request belongs to the visit that its cookie names, if that visit is noted,
/// still open, and for this share and this address.
pub proof fn law_visit_of_a_request(
    sessions: Map<Seq<char>, SessionView>,
    cookie: Option<Seq<char>>,
    id: Seq<char>,
    ip: IpAddr,
    tick: u128,
)
    ensures
        ({
            let open = cookie is Some && sessions.contains_key(cookie->0) && tick
                < sessions[cookie->0].expires_at && sessions[cookie->0].share_id == id
                && sessions[cookie->0].client_ip == ip;
            &&& session_of(sessions, cookie, id, ip, tick) == if open {
                cookie
            } else {
                None
            }
            &&& counted_before(sessions, cookie, id, ip, tick) <==> open
                && sessions[cookie->0].counted
        }),
{
}

/// A download is granted in a visit that was counted, and otherwise to whoever can
/// claim one. A visit that was counted is not counted again; any other claim is,
/// and marks the visit that it belongs to and no other.
pub proof fn law_claim_of_a_request(
    v: RegistryView,
    after: RegistryView,
    sessions: Map<Seq<char>, SessionView>,
    sessions_after: Map<Seq<char>, SessionView>,
    cookie: Option<Seq<char>>,
    id: Seq<char>,
    ip: IpAddr,
    tick: u128,
    now: i64,
    claimed: bool,
)
    requires
        claiming(v, after, sessions, sessions_after, cookie, id, ip, tick, now, claimed),
        v.valid(),
    ensures
        ({
            let open = cookie is Some && sessions.contains_key(cookie->0) && tick
                < sessions[cookie->0].expires_at && sessions[cookie->0].share_id == id
                && sessions[cookie->0].client_ip == ip;
            let counted = open && sessions[cookie->0].counted;
            let claimable = v.shares.contains_key(id) && v.shares[id].status == "active"@ && (
            v.shares[id].expires_at is None || now < v.shares[id].expires_at->0) && (
            v.shares[id].max_downloads is None || v.shares[id].download_count
                < v.shares[id].max_downloads->0);
            &&& claimed <==> counted || claimable
            &&& after == if !counted && claimable {
                RegistryView {
                    shares: v.shares.insert(
                        id,
                        ShareView {
                            download_count: (v.shares[id].download_count + 1) as i64,
                            ..v.shares[id]
                        },
                    ),
                    ..v
                }
            } else {
                v
            }
            &&& sessions_after == if open && !counted && claimable {
                sessions.insert(
                    cookie->0,
                    SessionView { counted: true, ..sessions[cookie->0] },
                )
            } else {
                sessions
            }
        }),
{
}

/// The sweep drops what is over and keeps what is not, as it is.
pub proof fn law_sweep_keeps_what_is_good(
    tokens: Map<Seq<char>, TokenView>,
    sessions: Map<Seq<char>, SessionView>,
    now: u128,
    t: Seq<char>,
)
    ensures
        live_tokens(tokens, now).contains_key(t) <==> tokens.contains_key(t) && now
            < tokens[t].expires_at,
        live_tokens(tokens, now).contains_key(t) ==> live_tokens(tokens, now)[t] == tokens[t],
        live_sessions(sessions, now).contains_key(t) <==> sessions.contains_key(t) && now
            < sessions[t].expires_at,
        live_sessions(sessions, now).contains_key(t) ==> live_sessions(sessions, now)[t]
            == sessions[t],
{
}

// ---------------------------------------------------------------------------
// Downloads

/// Who is let through to a file, and what the others are told, in this order: too
/// many requests, no such share, no password.
pub proof fn law_admission(
    v: RegistryView,
    tokens: Map<Seq<char>, TokenView>,
    sessions: Map<Seq<char>, SessionView>,
    within_rate: bool,
    id: Seq<char>,
    ip: IpAddr,
    headers: RequestHeaders,
    now: i64,
    tick: u128,
)
    ensures
        ({
            let cookie = cookie_of(headers.cookie, "tempshare_session"@);
            let token = if header_of(headers.unlock_token) is Some {
                header_of(headers.unlock_token)
            } else {
                cookie_of(headers.cookie, "tempshare_unlock"@)
            };
            let counted = cookie is Some && sessions.contains_key(cookie->0) && tick
                < sessions[cookie->0].expires_at && sessions[cookie->0].share_id == id
                && sessions[cookie->0].client_ip == ip && sessions[cookie->0].counted;
            let there = v.shares.contains_key(id) && v.shares[id].status == "active"@ && (
            v.shares[id].expires_at is None || now < v.shares[id].expires_at->0) && (counted
                || v.shares[id].max_downloads is None || v.shares[id].download_count
                < v.shares[id].max_downloads->0);
            let unlocked = v.shares[id].password_hash is None || (token is Some
                && tokens.contains_key(token->0) && tick < tokens[token->0].expires_at
                && tokens[token->0].share_id == id && tokens[token->0].client_ip == ip);
            admission(v, tokens, sessions, within_rate, id, ip, headers, now, tick) == if !within_rate {
                Err::<ShareView, ErrorView>(ErrorView::RateLimited)
            } else if !there {
                Err(ErrorView::NotFound)
            } else if !unlocked {
                Err(ErrorView::PasswordRequired)
            } else {
                Ok(v.shares[id])
            }
        }),
{
}

/// Letting a request through, or not, is decided by its address, its headers and
/// the time, and changes nothing but the record of requests and a token whose time
/// is over.
pub proof fn law_admitting_changes_little(
    before: AppState,
    after: AppState,
    v: RegistryView,
    ip: IpAddr,
    id: Seq<char>,
    headers: RequestHeaders,
    tick: u128,
    now: i64,
    reply: Result<ShareView, ErrorView>,
    t: Seq<char>,
)
    requires
        admitting(before, after, v, ip, id, headers, tick, now, reply),
    ensures
        after.config == before.config,
        after.public_base_url == before.public_base_url,
        after.tunnel_status == before.tunnel_status,
        after.download_sessions == before.download_sessions,
        after.unlock_tokens@.contains_key(t) ==> before.unlock_tokens@.contains_key(t)
            && after.unlock_tokens@[t] == before.unlock_tokens@[t],
        before.unlock_tokens@.contains_key(t) && !after.unlock_tokens@.contains_key(t)
            ==> before.unlock_tokens@[t].expires_at <= tick && token_carried(headers) == Some(t),
        before.unlock_tokens@.contains_key(t) && before.unlock_tokens@[t].expires_at <= tick
            && token_carried(headers) == Some(t) && reply == Err::<ShareView, ErrorView>(
            ErrorView::PasswordRequired,
        ) ==> !after.unlock_tokens@.contains_key(t),
        reply == Err::<ShareView, ErrorView>(ErrorView::RateLimited) ==> after.unlock_tokens@
            == before.unlock_tokens@,
        reply == Err::<ShareView, ErrorView>(ErrorView::NotFound) ==> after.unlock_tokens@
            == before.unlock_tokens@,
        reply is Ok ==> after.unlock_tokens@ == before.unlock_tokens@,
        after.rate_limiter.hits() == crate::auth::hits_after(
            before.rate_limiter.hits(),
            ip,
            tick,
            before.rate_limiter.window(),
            before.rate_limiter.max_requests(),
        ),
        after.rate_limiter.window() == before.rate_limiter.window(),
        after.rate_limiter.max_requests() == before.rate_limiter.max_requests(),
        reply == admission(
            v,
            before.unlock_tokens@,
            before.download_sessions@,
            crate::auth::lets_in(
                before.rate_limiter.hits(),
                ip,
                tick,
                before.rate_limiter.window(),
                before.rate_limiter.max_requests(),
            ),
            id,
            ip,
            headers,
            now,
            tick,
        ),
{
}

/// Without a `Range` header a file is sent whole: with status 200, from its first
/// byte on, all the bytes that it has. An empty one is sent as such.
pub proof fn law_file_is_sent_whole(name: Seq<char>, is_folder: bool, file_len: u64)
    ensures
        file_len > 0 ==> (planned(name, is_folder, None, file_len) matches ReplyView::Bytes {
            head,
            start,
            len,
        } && start == 0 && len == file_len && head.status == 200 && head.content_range is None),
        file_len == 0 ==> (planned(name, is_folder, None, file_len) matches ReplyView::Empty { head }
            && head.status == 200 && head.content_length == "0"@ && head.content_range is None),
{
    reveal_strlit("0");
    assert(decimal(0) =~= "0"@);
}

/// With a `Range` header that can be served, the part that it asks for is sent, from
/// its first byte to its last, with status 206 and a header that says which part of
/// how many bytes it is. With any other nothing is sent, and the header says how
/// many bytes there are.
pub proof fn law_part_is_sent_as_asked(
    name: Seq<char>,
    is_folder: bool,
    range: Option<Vec<u8>>,
    file_len: u64,
)
    requires
        range is Some,
    ensures
        ({
            let asked = match header_chars(range->0@) {
                Some(text) => range_of(text, file_len),
                None => None,
            };
            match asked {
                Some((a, b)) => planned(name, is_folder, range, file_len) matches ReplyView::Bytes {
                    head,
                    start,
                    len,
                } && start == a && len == b - a + 1 && head.status == 206 && head.content_range
                    == Some(
                    "bytes "@ + decimal(a as nat) + "-"@ + decimal(b as nat) + "/"@ + decimal(
                        file_len as nat,
                    ),
                ),
                None => planned(name, is_folder, range, file_len) == (ReplyView::NotSatisfiable {
                    content_range: "bytes */"@ + decimal(file_len as nat),
                }),
            }
        }),
{
    if let Some(text) = header_chars(range->0@) {
        law_range_lies_in_file(text, file_len);
    }
}

/// Every answer with bytes says how many follow, what they are, and under which
/// name to keep them; that parts can be asked for, and that it is not to be stored.
pub proof fn law_head_says_what_follows(
    name: Seq<char>,
    is_folder: bool,
    range: Option<Vec<u8>>,
    file_len: u64,
)
    ensures
        planned(name, is_folder, range, file_len) matches ReplyView::Bytes { head, start, len } ==> {
            &&& head.content_length == decimal(len as nat)
            &&& 0 < len && start + len <= file_len
            &&& head.content_type == if is_folder {
                "application/zip"@
            } else {
                "application/octet-stream"@
            }
            &&& head.content_disposition == disposition(name)
            &&& head.accept_ranges == "bytes"@
            &&& head.cache_control == "no-store"@
        },
        planned(name, is_folder, range, file_len) matches ReplyView::Empty { head } ==> {
            &&& head.content_type == if is_folder {
                "application/zip"@
            } else {
                "application/octet-stream"@
            }
            &&& head.content_disposition == disposition(name)
            &&& head.accept_ranges == "bytes"@
            &&& head.cache_control == "no-store"@
        },
{
    if let Some(value) = range {
        if let Some(text) = header_chars(value@) {
            law_range_lies_in_file(text, file_len);
        }
    }
}

/// A file that is fetched in two parts, up to a byte and from the next one on, is
/// fetched whole: the first part begins where the file does, the second where the
/// first ends, and together they are as long as the file. The name of the file makes
/// no difference to what is sent of it.
pub proof fn law_two_parts_are_the_whole(
    name: Seq<char>,
    other_name: Seq<char>,
    is_folder: bool,
    first: Vec<u8>,
    second: Vec<u8>,
    k: u64,
    file_len: u64,
)
    requires
        k + 1 < file_len,
        header_chars(first@) == Some("bytes="@ + decimal(0).push('-') + decimal(k as nat)),
        header_chars(second@) == Some("bytes="@ + decimal((k + 1) as nat).push('-')),
    ensures
        ({
            let a = planned(name, is_folder, Some(first), file_len);
            let b = planned(other_name, is_folder, Some(second), file_len);
            &&& a is Bytes && b is Bytes
            &&& a->start == 0
            &&& b->start == a->start + a->len
            &&& b->start + b->len == file_len
        }),
{
    law_resumed_download_is_whole(k, file_len);
}

/// A download that was let through is answered as planned if it is granted, and
/// with `NotFound` if it is not. Where there is nothing to send it is not claimed;
/// where there is, it is. Nothing else of the state changes.
pub proof fn law_download_is_answered_as_planned(
    before: AppState,
    after: AppState,
    v: RegistryView,
    v_after: RegistryView,
    share: ShareView,
    ip: IpAddr,
    id: Seq<char>,
    headers: RequestHeaders,
    file_len: u64,
    tick: u128,
    now: i64,
    reply: Result<ReplyView, ErrorView>,
)
    requires
        downloading(
            before,
            after,
            v,
            v_after,
            share,
            ip,
            id,
            headers,
            file_len,
            tick,
            now,
            reply,
        ),
    ensures
        ({
            let plan = planned(share.display_name, share.is_folder, headers.range, file_len);
            let cookie = cookie_of(headers.cookie, "tempshare_session"@);
            let sessions = before.download_sessions@;
            let counted = cookie is Some && sessions.contains_key(cookie->0) && tick
                < sessions[cookie->0].expires_at && sessions[cookie->0].share_id == id
                && sessions[cookie->0].client_ip == ip && sessions[cookie->0].counted;
            let claimable = v.shares.contains_key(id) && v.shares[id].status == "active"@ && (
            v.shares[id].expires_at is None || now < v.shares[id].expires_at->0) && (
            v.shares[id].max_downloads is None || v.shares[id].download_count
                < v.shares[id].max_downloads->0);
            &&& reply == if plan is NotSatisfiable || counted || claimable {
                Ok::<ReplyView, ErrorView>(plan)
            } else {
                Err(ErrorView::NotFound)
            }
            &&& plan is NotSatisfiable ==> v_after == v && after.download_sessions
                == before.download_sessions
            &&& !(plan is NotSatisfiable) ==> claiming(
                v,
                v_after,
                sessions,
                after.download_sessions@,
                cookie,
                id,
                ip,
                tick,
                now,
                counted || claimable,
            )
        }),
        after.config == before.config,
        after.rate_limiter == before.rate_limiter,
        after.unlock_tokens == before.unlock_tokens,
        after.public_base_url == before.public_base_url,
        after.tunnel_status == before.tunnel_status,
{
}

/// The name of an archive while it is served is hidden, ends as archives do, and has
/// the token in it.
pub proof fn law_archive_file_name(token: Seq<char>)
    ensures
        has_prefix(archive_file_name(token), ".archive-"@),
        has_suffix(archive_file_name(token), ".zip"@),
        archive_file_name(token).subrange(9, 9 + token.len() as int) == token,
        archive_file_name(token).len() == token.len() + 13,
{
    reveal_strlit(".archive-");
    reveal_strlit(".zip");
    let name = archive_file_name(token);
    assert(name.take(9) =~= ".archive-"@);
    assert(name.skip(name.len() - 4) =~= ".zip"@);
    assert(name.subrange(9, 9 + token.len() as int) =~= token);
}

/// The archive of a folder has all the files of its share, in their order; a share
/// without files has none.
pub proof fn law_archive_has_all_files(v: RegistryView, id: Seq<char>, token: Seq<char>)
    ensures
        archive_of(v, id, token) is None <==> entries_of(v.entries, id).len() == 0,
        archive_of(v, id, token) matches Some((name, files)) ==> files == entries_of(v.entries, id)
            && name == ".archive-"@ + token + ".zip"@,
{
}

// ---------------------------------------------------------------------------
// What recipients are shown

/// A recipient is told the name and the size of a share that can be had, and
/// whether it has a password.
pub proof fn law_info_is_faithful(v: RegistryView, id: Seq<char>, now: i64)
    ensures
        ({
            let there = v.shares.contains_key(id) && v.shares[id].status == "active"@ && (
            v.shares[id].expires_at is None || now < v.shares[id].expires_at->0) && (
            v.shares[id].max_downloads is None || v.shares[id].download_count
                < v.shares[id].max_downloads->0);
            info(v, id, now) == if there {
                Ok::<InfoView, ErrorView>(
                    InfoView {
                        id: v.shares[id].id,
                        display_name: v.shares[id].display_name,
                        size_bytes: v.shares[id].size_bytes,
                        requires_password: v.shares[id].password_hash is Some,
                    },
                )
            } else {
                Err(ErrorView::NotFound)
            }
        }),
{
}

/// The link of a share that can be had opens its page, with its name and its size,
/// and a visit that lasts a day: noted for this share and this address and not
/// counted, under the token that the cookie carries. The link of any other share
/// opens nothing. Nothing else of the state changes.
pub proof fn law_link_opens_the_page(
    before: AppState,
    after: AppState,
    v: RegistryView,
    ip: IpAddr,
    id: Seq<char>,
    tick: u128,
    token: Seq<char>,
    now: i64,
    reply: Result<PageView, ErrorView>,
)
    requires
        visiting(before, after, v, ip, id, tick, token, now, reply),
    ensures
        ({
            let there = v.shares.contains_key(id) && v.shares[id].status == "active"@ && (
            v.shares[id].expires_at is None || now < v.shares[id].expires_at->0) && (
            v.shares[id].max_downloads is None || v.shares[id].download_count
                < v.shares[id].max_downloads->0);
            let s = v.shares[id];
            let cookie = "tempshare_session="@ + token + "; Path=/download/"@ + id
                + "; Max-Age=86400; HttpOnly; Secure; SameSite=Strict"@;
            &&& there ==> {
                &&& reply == if can_be_header(cookie) {
                    Ok::<PageView, ErrorView>(
                        PageView {
                            html: page(
                                s.id,
                                s.display_name,
                                s.size_bytes,
                                s.password_hash is Some,
                            ),
                            cookie: cookie,
                            content_security_policy:
                                "default-src 'none'; style-src 'unsafe-inline'; script-src 'unsafe-inline'; connect-src 'self'; form-action 'none'; base-uri 'none'"@,
                            referrer_policy: "no-referrer"@,
                            content_type_options: "nosniff"@,
                        },
                    )
                } else {
                    Err(ErrorView::Internal("cookie is no header value"@))
                }
                &&& after.download_sessions@ == before.download_sessions@.insert(
                    token,
                    SessionView {
                        share_id: id,
                        client_ip: ip,
                        expires_at: (tick + 86_400 * 1_000_000_000) as u128,
                        counted: false,
                    },
                )
            }
            &&& !there ==> reply == Err::<PageView, ErrorView>(ErrorView::NotFound)
                && after.download_sessions@ == before.download_sessions@
        }),
        after.config == before.config,
        after.rate_limiter == before.rate_limiter,
        after.unlock_tokens == before.unlock_tokens,
        after.public_base_url == before.public_base_url,
        after.tunnel_status == before.tunnel_status,
{
    reveal_strlit("tempshare_session");
    reveal_strlit("tempshare_session=");
    reveal_strlit("=");
    reveal_strlit("; Max-Age=");
    reveal_strlit("; HttpOnly; Secure; SameSite=Strict");
    reveal_strlit("; Max-Age=86400; HttpOnly; Secure; SameSite=Strict");
    reveal_with_fuel(decimal, 6);
    assert(decimal(86400) =~= seq!['8', '6', '4', '0', '0']);
    assert("tempshare_session"@ + "="@ =~= "tempshare_session="@);
    let start = "tempshare_session="@ + token + "; Path=/download/"@ + id;
    assert(start + "; Max-Age="@ + decimal(86400) + "; HttpOnly; Secure; SameSite=Strict"@ =~= start
        + "; Max-Age=86400; HttpOnly; Secure; SameSite=Strict"@);
}

/// The share that is served under an id is the one that is there, as it is; where it
/// cannot be served, it is not found, whatever the reason.
pub proof fn law_share_is_loaded_as_it_is(
    v: RegistryView,
    id: Seq<char>,
    continued: bool,
    now: i64,
)
    ensures
        loaded(v, id, continued, now) == if v.shares.contains_key(id) && v.shares[id].status
            == "active"@ && (v.shares[id].expires_at is None || now < v.shares[id].expires_at->0)
            && (continued || v.shares[id].max_downloads is None || v.shares[id].download_count
            < v.shares[id].max_downloads->0) {
            Ok::<ShareView, ErrorView>(v.shares[id])
        } else {
            Err(ErrorView::NotFound)
        },
{
}

/// A stretch of seconds is as many thousand million ticks.
pub proof fn law_seconds_in_ticks(tick: u128, secs: u64, before: AppState, after: AppState)
    ensures
        after_secs(tick, secs) == tick + secs * 1_000_000_000,
        same_but_tokens(before, after) <==> after.config == before.config && after.rate_limiter
            == before.rate_limiter && after.public_base_url == before.public_base_url
            && after.tunnel_status == before.tunnel_status,
{
}

/// The addresses of this machine are `127.0.0.0/8` and `::1`, and what a proxy
/// reports is believed from these alone.
pub proof fn law_client_of_a_request(peer: IpAddr, forwarded: Option<IpAddr>)
    ensures
        peer matches IpAddr::V4(bits) ==> (peer.loopback() <==> bits / 0x100_0000 == 127),
        peer matches IpAddr::V6(bits) ==> (peer.loopback() <==> bits == 1),
        client_of(peer, forwarded) == if forwarded is Some && match peer {
            IpAddr::V4(bits) => bits / 0x100_0000 == 127,
            IpAddr::V6(bits) => bits == 1,
        } {
            forwarded->0
        } else {
            peer
        },
{
}

} // verus!
