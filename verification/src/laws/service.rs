//! The service around the shares: its configuration, who may reach which part of it,
//! how the tunnel is kept up, and what identifiers look like.

use crate::auth::{hits_after, hits_swept, lets_in, recent, times_of};
use crate::guard::{host_name, is_local_name, is_local_origin, refusal};
use crate::headers::{header_of, RequestHeaders};
use crate::ids::{is_token, token_char, token_text, ALPHABET, SESSION_TOKEN_LEN, SHARE_ID_LEN};
use crate::laws::filters::{lemma_filter_none, lemma_filter_push};
use crate::net::IpAddr;
use crate::routes::{
    longest_body, management_routes, public_routes, Action, Method,
};
use crate::state::{
    configured, is_yes, number_or, or_default, without_slashes, AppState, Config, EnvVars,
};
use crate::text::{
    cut_at, decimal, has_prefix, lemma_first_index_is, lower, lowercase, stands_at, unsigned_value,
};
use crate::tunnel::{
    arguments, mentions, next_delay, shown, target, tunnel_url, StepView, TunnelAction, TunnelEvent, TunnelView,
};
use vstd::prelude::*;

verus! {

// ---------------------------------------------------------------------------
// Configuration

/// A setting is what the environment says, and has its default where it says
/// nothing; a number has it too where what is said is no number, or too large a one.
pub proof fn law_environment_comes_first(value: String, default: Seq<char>, max: int, number: int)
    ensures
        or_default(Some(value), default) == value@,
        or_default(None, default) == default,
        unsigned_value(value@, max) is Some ==> number_or(Some(value), max, number)
            == unsigned_value(value@, max)->0,
        unsigned_value(value@, max) is None ==> number_or(Some(value), max, number) == number,
        number_or(None, max, number) == number,
{
}

/// What holds where the environment says nothing: the two listeners are on this
/// machine, shares are kept below `./data`, a share has at most 50 GiB, an address may
/// ask for 120 downloads a minute, five failed attempts in five minutes close a share
/// to an address, a password is good for fifteen minutes, and nothing slows a
/// download down.
pub proof fn law_defaults(vars: EnvVars, c: Config)
    requires
        configured(vars, c),
    ensures
        vars.bind_addr is None ==> c.bind_addr@ == "127.0.0.1:7420"@,
        vars.public_bind_addr is None ==> c.public_bind_addr@ == "127.0.0.1:7421"@,
        vars.public_base_url is None ==> c.public_base_url@ == "http://127.0.0.1:7421"@,
        vars.auto_tunnel is None ==> !c.auto_tunnel,
        vars.storage_dir is None ==> c.storage_dir@ == "./data/shared_files"@,
        vars.db_path is None ==> c.db_path@ == "./data/tempshare.db"@,
        vars.max_upload_bytes is None ==> c.max_upload_bytes == 53_687_091_200,
        vars.rate_limit_per_min is None ==> c.global_rate_limit_per_min == 120,
        c.failed_auth_max == 5,
        c.failed_auth_window_secs == 5 * 60,
        vars.unlock_token_ttl_secs is None ==> c.unlock_token_ttl_secs == 15 * 60,
        vars.bandwidth_bytes_per_sec is None ==> c.bandwidth_bytes_per_sec == 0,
{
    reveal_strlit("http://127.0.0.1:7421");
    let url = "http://127.0.0.1:7421"@;
    assert(url.last() == '1');
    law_only_slashes_at_the_end_go(url, Seq::empty());
    assert(url + Seq::<char>::empty() =~= url);
}

/// What the environment says holds: a text as it is, an address without the slashes
/// at its end, a number as far as it is one and fits.
pub proof fn law_environment_is_followed(vars: EnvVars, c: Config)
    requires
        configured(vars, c),
    ensures
        vars.bind_addr is Some ==> c.bind_addr@ == vars.bind_addr->0@,
        vars.public_bind_addr is Some ==> c.public_bind_addr@ == vars.public_bind_addr->0@,
        vars.public_base_url is Some ==> c.public_base_url@ == without_slashes(
            vars.public_base_url->0@,
        ),
        vars.auto_tunnel is Some ==> c.auto_tunnel == is_yes(vars.auto_tunnel->0@),
        vars.storage_dir is Some ==> c.storage_dir@ == vars.storage_dir->0@,
        vars.db_path is Some ==> c.db_path@ == vars.db_path->0@,
        vars.max_upload_bytes is Some ==> c.max_upload_bytes == match unsigned_value(
            vars.max_upload_bytes->0@,
            0xffff_ffff_ffff_ffff,
        ) {
            Some(n) => n,
            None => 53_687_091_200,
        },
        vars.rate_limit_per_min is Some ==> c.global_rate_limit_per_min == match unsigned_value(
            vars.rate_limit_per_min->0@,
            0xffff_ffff,
        ) {
            Some(n) => n,
            None => 120,
        },
        vars.unlock_token_ttl_secs is Some ==> c.unlock_token_ttl_secs == match unsigned_value(
            vars.unlock_token_ttl_secs->0@,
            0xffff_ffff_ffff_ffff,
        ) {
            Some(n) => n,
            None => 900,
        },
        vars.bandwidth_bytes_per_sec is Some ==> c.bandwidth_bytes_per_sec == match unsigned_value(
            vars.bandwidth_bytes_per_sec->0@,
            0xffff_ffff_ffff_ffff,
        ) {
            Some(n) => n,
            None => 0,
        },
{
}

/// The service starts with nothing in memory, and with the limit on requests that is
/// configured, for each minute.
pub proof fn law_service_starts_empty(state: AppState, config: Config, ip: IpAddr, t: Seq<char>, now: u128)
    requires
        state.fresh(config),
    ensures
        state.config == config,
        !state.unlock_tokens@.contains_key(t),
        !state.download_sessions@.contains_key(t),
        state.rate_limiter.window() == 60_000_000_000,
        state.rate_limiter.max_requests() == config.global_rate_limit_per_min,
        lets_in(
            state.rate_limiter.hits(),
            ip,
            now,
            state.rate_limiter.window(),
            state.rate_limiter.max_requests(),
        ) <==> config.global_rate_limit_per_min > 0,
        state.public_base_url@ == config.public_base_url@,
        config.auto_tunnel ==> state.tunnel_status@ == "starting"@,
        !config.auto_tunnel ==> state.tunnel_status@ == "disabled"@,
{
    law_request_is_let_in_below_the_limit(
        state.rate_limiter.hits(),
        ip,
        ip,
        now,
        state.rate_limiter.window(),
        state.rate_limiter.max_requests(),
    );
}

/// The slashes at the end of an address are left out, and nothing else of it.
pub proof fn law_only_slashes_at_the_end_go(s: Seq<char>, slashes: Seq<char>)
    requires
        s.len() > 0 ==> s.last() != '/',
        forall|i: int| 0 <= i < slashes.len() ==> #[trigger] slashes[i] == '/',
    ensures
        without_slashes(s + slashes) == s,
    decreases slashes.len(),
{
    let all = s + slashes;
    if slashes.len() > 0 {
        assert(slashes[slashes.len() - 1] == '/');
        assert(all.last() == '/');
        assert(all.drop_last() =~= s + slashes.drop_last());
        law_only_slashes_at_the_end_go(s, slashes.drop_last());
    } else {
        assert(all =~= s);
    }
}

/// What switches something on: `1`, `true` and `yes`, in letters of either size.
pub proof fn law_what_switches_on(s: Seq<char>)
    ensures
        is_yes(s) <==> lowercase(s) == "1"@ || lowercase(s) == "true"@ || lowercase(s) == "yes"@,
        is_yes("1"@),
        is_yes("true"@),
        is_yes("TRUE"@),
        is_yes("yes"@),
        !is_yes(""@),
        !is_yes("0"@),
        !is_yes("no"@),
{
    reveal_strlit("1");
    reveal_strlit("true");
    reveal_strlit("TRUE");
    reveal_strlit("yes");
    reveal_strlit("");
    reveal_strlit("0");
    reveal_strlit("no");
    assert(lowercase("1"@) =~= "1"@);
    assert(lowercase("true"@) =~= "true"@);
    assert(lowercase("TRUE"@) =~= "true"@);
    assert(lowercase("yes"@) =~= "yes"@);
    assert(lowercase(""@).len() == 0);
    assert(lowercase("0"@).len() == 1 && lowercase("0"@)[0] == '0');
    assert(lowercase("no"@).len() == 2);
    assert("1"@.len() == 1 && "1"@[0] == '1' && "true"@.len() == 4 && "yes"@.len() == 3);
}

// ---------------------------------------------------------------------------
// The management listener

/// The name in a `Host` header is what stands before the first colon, or between the
/// brackets where it stands in brackets.
pub proof fn law_host_without_its_port(name: Seq<char>, port: Seq<char>, inner: Seq<char>, rest: Seq<char>)
    requires
        forall|i: int| 0 <= i < name.len() ==> #[trigger] name[i] != ':',
        port.len() > 0 ==> port[0] == ':',
        name.len() > 0 ==> name[0] != '[',
        forall|i: int| 0 <= i < inner.len() ==> #[trigger] inner[i] != ']',
    ensures
        host_name(name + port) == name,
        host_name(seq!['['] + inner + seq![']'] + rest) == inner,
{
    let host = name + port;
    if name.len() > 0 {
        assert(host[0] == name[0]);
    } else if port.len() > 0 {
        assert(host[0] == port[0]);
    }
    assert forall|j: int| 0 <= j < name.len() implies host[j] != ':' by {
        assert(host[j] == name[j]);
    }
    if port.len() > 0 {
        assert(host[name.len() as int] == port[0]);
    }
    lemma_first_index_is(host, ':', name.len() as int);
    assert(host.take(name.len() as int) =~= name);
    if port.len() == 0 {
        assert(host =~= name);
    }
    let boxed = seq!['['] + inner + seq![']'] + rest;
    assert(boxed[0] == '[');
    let tail = boxed.skip(1);
    assert(tail =~= inner + seq![']'] + rest);
    assert(tail[inner.len() as int] == ']');
    assert forall|j: int| 0 <= j < inner.len() implies tail[j] != ']' by {
        assert(tail[j] == inner[j]);
    }
    lemma_first_index_is(tail, ']', inner.len() as int);
    assert(tail.take(inner.len() as int) =~= inner);
    assert(cut_at(tail, ']') is Some);
}

proof fn lemma_lower_keeps(c: char, x: char)
    requires
        !('a' <= x <= 'z'),
        lower(c) == x,
    ensures
        c == x,
{
}

/// The names of this machine: its two addresses as they are, and `localhost` in
/// letters of either size. No other name is one.
pub proof fn law_names_of_this_machine(name: Seq<char>)
    ensures
        is_local_name(name) <==> name == "127.0.0.1"@ || name == "::1"@ || (name.len() == 9
            && forall|i: int|
            0 <= i < 9 ==> lower(#[trigger] name[i]) == "localhost"@[i]),
        is_local_name("127.0.0.1"@),
        is_local_name("localhost"@),
        is_local_name("::1"@),
{
    reveal_strlit("127.0.0.1");
    reveal_strlit("localhost");
    reveal_strlit("::1");
    let low = lowercase(name);
    assert(lowercase("127.0.0.1"@) =~= "127.0.0.1"@);
    assert(lowercase("localhost"@) =~= "localhost"@);
    assert(lowercase("::1"@) =~= "::1"@);
    if low == "127.0.0.1"@ {
        assert forall|i: int| 0 <= i < name.len() implies name[i] == "127.0.0.1"@[i] by {
            assert(low[i] == "127.0.0.1"@[i]);
            assert(!('a' <= "127.0.0.1"@[i] <= 'z'));
            lemma_lower_keeps(name[i], "127.0.0.1"@[i]);
        }
        assert(name =~= "127.0.0.1"@);
    }
    if low == "::1"@ {
        assert forall|i: int| 0 <= i < name.len() implies name[i] == "::1"@[i] by {
            assert(low[i] == "::1"@[i]);
            assert(!('a' <= "::1"@[i] <= 'z'));
            lemma_lower_keeps(name[i], "::1"@[i]);
        }
        assert(name =~= "::1"@);
    }
    if low == "localhost"@ {
        assert forall|i: int| 0 <= i < 9 implies lower(#[trigger] name[i]) == "localhost"@[i] by {
            assert(low[i] == "localhost"@[i]);
        }
    }
    if name.len() == 9 && forall|i: int|
        0 <= i < 9 ==> lower(#[trigger] name[i]) == "localhost"@[i] {
        assert(low =~= "localhost"@);
    }
}

/// The origins of the dashboard begin with `http` or `https` and a name of this
/// machine, with a colon behind it, in letters of either size. No other origin is
/// one.
pub proof fn law_origins_of_the_dashboard(origin: Seq<char>)
    ensures
        is_local_origin(origin) <==> (origin.len() >= 17 && (lowercase(origin.take(17))
            == "http://127.0.0.1:"@ || lowercase(origin.take(17)) == "http://localhost:"@)) || (
        origin.len() >= 18 && (lowercase(origin.take(18)) == "https://127.0.0.1:"@ || lowercase(
            origin.take(18),
        ) == "https://localhost:"@)),
{
    reveal_strlit("http://127.0.0.1:");
    reveal_strlit("http://localhost:");
    reveal_strlit("https://127.0.0.1:");
    reveal_strlit("https://localhost:");
    if origin.len() >= 17 {
        assert(lowercase(origin.take(17)) =~= lowercase(origin).take(17));
    }
    if origin.len() >= 18 {
        assert(lowercase(origin.take(18)) =~= lowercase(origin).take(18));
    }
}

/// A request from the dashboard is let in: one with a name of this machine in its
/// `Host` header, or without one that can be read, and with an origin of the
/// dashboard or none. Any other is turned away.
pub proof fn law_dashboard_is_let_in(headers: RequestHeaders)
    ensures
        ({
            let host = header_of(headers.host);
            let origin = header_of(headers.origin);
            let foreign_host = host is Some && !is_local_name(host_name(host->0));
            let foreign_origin = origin is Some && !is_local_origin(origin->0);
            &&& refusal(headers) is None <==> !foreign_host && !foreign_origin
            &&& foreign_host ==> refusal(headers) == Some("management interface is local-only"@)
            &&& !foreign_host && foreign_origin ==> refusal(headers) == Some(
                "cross-origin management request rejected"@,
            )
        }),
{
}

// ---------------------------------------------------------------------------
// Routes

/// Where each thing that can be asked for is asked for, with either listener: one
/// method and one path for each. On the management listener, what lies below `/api`
/// takes a body as long as the largest file asks for; nothing else takes a long one.
pub proof fn law_what_is_asked_for_where(max_upload_bytes: u64, i: int)
    ensures
        management_routes(max_upload_bytes).len() == 11,
        public_routes().len() == 4,
        0 <= i < 11 ==> ({
            let r = management_routes(max_upload_bytes)[i];
            &&& r.path == path_for(r.action)
            &&& r.method == method_for(r.action)
            &&& r.body_limit is Some <==> has_prefix(r.path, "/api/"@)
            &&& r.body_limit is Some ==> r.body_limit->0 == if max_upload_bytes + 16_777_216
                <= usize::MAX {
                max_upload_bytes + 16_777_216
            } else {
                usize::MAX as int
            }
        }),
        0 <= i < 4 ==> ({
            let r = public_routes()[i];
            &&& r.path == path_for(r.action)
            &&& r.method == method_for(r.action)
            &&& r.body_limit is None
        }),
{
    reveal_strlit("/api/");
    reveal_strlit("/api/shares");
    reveal_strlit("/api/shares/folder");
    reveal_strlit("/api/status");
    reveal_strlit("/api/shares/:id");
    reveal_strlit("/api/shares/:id/revoke");
    reveal_strlit("/api/download/:id/info");
    reveal_strlit("/api/download/:id/unlock");
    reveal_strlit("/download/:id");
    reveal_strlit("/s/:id");
    if 0 <= i < 11 {
        let path = management_routes(max_upload_bytes)[i].path;
        assert(path.len() >= 5);
        if i < 9 {
            assert(path.take(5) =~= "/api/"@);
        } else {
            assert(path.take(5)[1] == path[1]);
            assert("/api/"@[1] == 'a');
        }
    }
}

/// Everything that can be asked for is asked for somewhere: all of it on the
/// management listener, and what recipients need on the public one too.
pub proof fn law_everything_has_a_route(max_upload_bytes: u64, action: Action)
    ensures
        exists|i: int| 0 <= i < 11 && #[trigger] management_routes(max_upload_bytes)[i].action == action,
        (exists|i: int| 0 <= i < 4 && #[trigger] public_routes()[i].action == action) <==> action
            == Action::SharePage || action == Action::Download || action == Action::ShareInfo
            || action == Action::UnlockShare,
{
    let all = management_routes(max_upload_bytes);
    assert(all[0].action == Action::ListShares);
    assert(all[1].action == Action::CreateShare);
    assert(all[2].action == Action::CreateFolderShare);
    assert(all[3].action == Action::ServerStatus);
    assert(all[4].action == Action::UpdateShare);
    assert(all[5].action == Action::DeleteShare);
    assert(all[6].action == Action::RevokeShare);
    assert(all[7].action == Action::ShareInfo);
    assert(all[8].action == Action::UnlockShare);
    assert(all[9].action == Action::Download);
    assert(all[10].action == Action::SharePage);
    let open = public_routes();
    assert(open[0].action == Action::SharePage);
    assert(open[1].action == Action::Download);
    assert(open[2].action == Action::ShareInfo);
    assert(open[3].action == Action::UnlockShare);
}

/// The path at which something is asked for.
pub open spec fn path_for(action: Action) -> Seq<char> {
    match action {
        Action::ListShares => "/api/shares"@,
        Action::CreateShare => "/api/shares"@,
        Action::CreateFolderShare => "/api/shares/folder"@,
        Action::ServerStatus => "/api/status"@,
        Action::UpdateShare => "/api/shares/:id"@,
        Action::DeleteShare => "/api/shares/:id"@,
        Action::RevokeShare => "/api/shares/:id/revoke"@,
        Action::ShareInfo => "/api/download/:id/info"@,
        Action::UnlockShare => "/api/download/:id/unlock"@,
        Action::Download => "/download/:id"@,
        Action::SharePage => "/s/:id"@,
    }
}

/// The method with which something is asked for.
pub open spec fn method_for(action: Action) -> Method {
    match action {
        Action::CreateShare => Method::Post,
        Action::CreateFolderShare => Method::Post,
        Action::RevokeShare => Method::Post,
        Action::UnlockShare => Method::Post,
        Action::UpdateShare => Method::Patch,
        Action::DeleteShare => Method::Delete,
        _ => Method::Get,
    }
}

/// The longest body leaves room for the form round the largest file, as far as a
/// length can be counted.
pub proof fn law_longest_body(max_upload_bytes: u64)
    ensures
        max_upload_bytes + 16_777_216 <= usize::MAX ==> longest_body(max_upload_bytes)
            == max_upload_bytes + 16_777_216,
        max_upload_bytes + 16_777_216 > usize::MAX ==> longest_body(max_upload_bytes) == usize::MAX,
{
}

// ---------------------------------------------------------------------------
// The tunnel

/// The waits before a new start: two seconds at first, then twice as many each time,
/// and thirty at most.
pub proof fn law_waits_double(delay: u64)
    ensures
        TunnelView::new().retry_delay == 2,
        delay <= 15 ==> next_delay(delay) == 2 * delay,
        delay > 15 ==> next_delay(delay) == 30,
{
}

/// The program is started where it is there and whenever a wait is over. Where it
/// cannot be started or has ended, it is started again after the wait, and the next
/// wait is longer.
pub proof fn law_tunnel_is_kept_up(tunnel: TunnelView)
    ensures
        tunnel.step(TunnelEvent::Looked { present: true }) == (StepView {
            tunnel: tunnel,
            action: TunnelAction::Start,
            status: Some("starting"@),
            base_url: None,
        }),
        tunnel.step(TunnelEvent::Looked { present: false }) == (StepView {
            tunnel: tunnel,
            action: TunnelAction::Stop,
            status: Some("cloudflared_missing"@),
            base_url: None,
        }),
        tunnel.step(TunnelEvent::Waited) == (StepView {
            tunnel: tunnel,
            action: TunnelAction::Start,
            status: Some("starting"@),
            base_url: None,
        }),
        tunnel.step(TunnelEvent::NotStarted) == (StepView {
            tunnel: TunnelView { retry_delay: next_delay(tunnel.retry_delay), ..tunnel },
            action: TunnelAction::Wait { secs: tunnel.retry_delay },
            status: Some("start_failed"@),
            base_url: None,
        }),
        tunnel.step(TunnelEvent::NoLog) == (StepView {
            tunnel: tunnel,
            action: TunnelAction::Stop,
            status: Some("start_failed"@),
            base_url: None,
        }),
        tunnel.step(TunnelEvent::Ended) == (StepView {
            tunnel: TunnelView { retry_delay: next_delay(tunnel.retry_delay), ..tunnel },
            action: TunnelAction::Wait { secs: tunnel.retry_delay },
            status: Some(
                if tunnel.connected {
                    "reconnecting"@
                } else {
                    "failed"@
                },
            ),
            base_url: None,
        }),
{
}

/// A start forgets what the log said before, and keeps the wait. An address that the
/// log gives is told once the log also said that the tunnel is known, in whichever
/// order, and five seconds later; with it the wait is two seconds again.
pub proof fn law_address_is_told_once_known(tunnel: TunnelView, line: String)
    ensures
        tunnel.step(TunnelEvent::Started) == (StepView {
            tunnel: TunnelView {
                retry_delay: tunnel.retry_delay,
                connected: false,
                registered: false,
                pending_url: None,
                announcing: None,
            },
            action: TunnelAction::Read,
            status: None,
            base_url: None,
        }),
        ({
            let s = tunnel.step(TunnelEvent::Line { line });
            let known = tunnel.registered || exists|at: int|
                0 <= at && at + 28 <= line@.len() && #[trigger] line@.subrange(at, at + 28)
                    == "Registered tunnel connection"@;
            let url = if tunnel_url(line@) is Some {
                tunnel_url(line@)
            } else {
                tunnel.pending_url
            };
            &&& s.tunnel.registered == known
            &&& s.tunnel.pending_url == if known {
                None
            } else {
                url
            }
            &&& s.tunnel.announcing == if known {
                url
            } else {
                None
            }
            &&& s.tunnel.retry_delay == tunnel.retry_delay
            &&& s.tunnel.connected == tunnel.connected
            &&& s.action == if known && url is Some {
                TunnelAction::Settle { secs: 5 }
            } else {
                TunnelAction::Read
            }
            &&& s.status is None && s.base_url is None
        }),
        tunnel.announcing is Some ==> tunnel.step(TunnelEvent::Settled) == (StepView {
            tunnel: TunnelView { retry_delay: 2, connected: true, announcing: None, ..tunnel },
            action: TunnelAction::Read,
            status: Some("connected"@),
            base_url: tunnel.announcing,
        }),
        tunnel.announcing is None ==> tunnel.step(TunnelEvent::Settled) == (StepView {
            tunnel: tunnel,
            action: TunnelAction::Read,
            status: None,
            base_url: None,
        }),
{
    reveal_strlit("Registered tunnel connection");
    let part = "Registered tunnel connection"@;
    assert(part.len() == 28);
    if mentions(line@, part) {
        let at = choose|at: int| #[trigger] stands_at(line@, part, at);
        assert(line@.subrange(at, at + 28) == part);
    }
    if exists|at: int|
        0 <= at && at + 28 <= line@.len() && #[trigger] line@.subrange(at, at + 28) == part {
        let at = choose|at: int|
            0 <= at && at + 28 <= line@.len() && #[trigger] line@.subrange(at, at + 28) == part;
        assert(stands_at(line@, part, at));
    }
}

/// The program is started with a configuration of its own, without looking for a new
/// version of itself, and pointed at the public listener on this machine.
pub proof fn law_program_is_pointed_here(config: Seq<char>, port: u16)
    ensures
        arguments(config, port).len() == 6,
        arguments(config, port)[0] == "--config"@,
        arguments(config, port)[1] == config,
        arguments(config, port)[2] == "tunnel"@,
        arguments(config, port)[3] == "--no-autoupdate"@,
        arguments(config, port)[4] == "--url"@,
        arguments(config, port)[5] == "http://127.0.0.1:"@ + decimal(port as nat),
{
}

/// What is shown changes where there is something new to show, and stays otherwise.
/// The program is pointed at the public listener on this machine.
pub proof fn law_what_is_shown(before: Seq<char>, now: Seq<char>, port: u16)
    ensures
        shown(before, Some(now)) == now,
        shown(before, None) == before,
        target(port) == "http://127.0.0.1:"@ + decimal(port as nat),
{
}

// ---------------------------------------------------------------------------
// Identifiers

/// The characters of identifiers: the capitals without `I` and `O`, the small letters
/// without `l`, the digits from 2 to 9. Of 57 bytes in a row each stands for another
/// one.
pub proof fn law_alphabet_of_identifiers(b: u8)
    ensures
        ({
            let k = b as int % 57;
            token_char(b) as int == if k < 8 {
                'A' as int + k
            } else if k < 13 {
                'J' as int + (k - 8)
            } else if k < 24 {
                'P' as int + (k - 13)
            } else if k < 35 {
                'a' as int + (k - 24)
            } else if k < 49 {
                'm' as int + (k - 35)
            } else {
                '2' as int + (k - 49)
            }
        }),
        SHARE_ID_LEN == 22,
        SESSION_TOKEN_LEN == 32,
{
    reveal_strlit("ABCDEFGHJKLMNPQRSTUVWXYZabcdefghijkmnopqrstuvwxyz23456789");
    let k = b as int % 57;
    assert(ALPHABET@.len() == 57);
    assert(0 <= k < 57);
}

/// An identifier has a character for each byte, and two bytes stand for the same one
/// only where they leave the same rest. It has the characters of identifiers alone.
pub proof fn law_identifiers_follow_their_bytes(bytes: Seq<u8>, a: u8, b: u8, s: Seq<char>, len: int)
    ensures
        token_text(bytes).len() == bytes.len(),
        forall|i: int| 0 <= i < bytes.len() ==> #[trigger] token_text(bytes)[i] == token_char(bytes[i]),
        token_char(a) == token_char(b) <==> a % 57 == b % 57,
        is_token(s, len) <==> s.len() == len && forall|i: int|
            0 <= i < s.len() ==> ('A' <= #[trigger] s[i] <= 'H' || 'J' <= s[i] <= 'N' || 'P' <= s[i]
                <= 'Z' || 'a' <= s[i] <= 'k' || 'm' <= s[i] <= 'z' || '2' <= s[i] <= '9'),
{
    law_alphabet_of_identifiers(a);
    law_alphabet_of_identifiers(b);
    if is_token(s, len) {
        assert forall|i: int| 0 <= i < s.len() implies ('A' <= #[trigger] s[i] <= 'H' || 'J' <= s[i]
            <= 'N' || 'P' <= s[i] <= 'Z' || 'a' <= s[i] <= 'k' || 'm' <= s[i] <= 'z' || '2' <= s[i]
            <= '9') by {
            assert(ALPHABET@.contains(s[i]));
            let k = choose|k: int| 0 <= k < ALPHABET@.len() && ALPHABET@[k] == s[i];
            lemma_alphabet_size();
            law_alphabet_of_identifiers(k as u8);
            assert(token_char(k as u8) == ALPHABET@[k]);
        }
    }
    if s.len() == len && forall|i: int|
        0 <= i < s.len() ==> ('A' <= #[trigger] s[i] <= 'H' || 'J' <= s[i] <= 'N' || 'P' <= s[i]
            <= 'Z' || 'a' <= s[i] <= 'k' || 'm' <= s[i] <= 'z' || '2' <= s[i] <= '9') {
        assert forall|i: int| 0 <= i < s.len() implies ALPHABET@.contains(#[trigger] s[i]) by {
            let c = s[i];
            let k = if 'A' <= c <= 'H' {
                c as int - 'A' as int
            } else if 'J' <= c <= 'N' {
                8 + (c as int - 'J' as int)
            } else if 'P' <= c <= 'Z' {
                13 + (c as int - 'P' as int)
            } else if 'a' <= c <= 'k' {
                24 + (c as int - 'a' as int)
            } else if 'm' <= c <= 'z' {
                35 + (c as int - 'm' as int)
            } else {
                49 + (c as int - '2' as int)
            };
            lemma_alphabet_size();
            law_alphabet_of_identifiers(k as u8);
            assert(token_char(k as u8) == ALPHABET@[k]);
        }
    }
}

proof fn lemma_alphabet_size()
    ensures
        ALPHABET@.len() == 57,
{
    reveal_strlit("ABCDEFGHJKLMNPQRSTUVWXYZabcdefghijkmnopqrstuvwxyz23456789");
}

// ---------------------------------------------------------------------------
// The limit on requests

/// A request counts for as long as the window is wide, each one once, and one that is
/// yet to come counts too.
pub proof fn law_requests_are_counted_one_by_one(times: Seq<u128>, t: u128, now: u128, window: u128)
    ensures
        recent(Seq::empty(), now, window) == Seq::<u128>::empty(),
        t <= now && now - t >= window ==> recent(times.push(t), now, window) == recent(
            times,
            now,
            window,
        ),
        t <= now && now - t < window ==> recent(times.push(t), now, window) == recent(
            times,
            now,
            window,
        ).push(t),
        t > now && window > 0 ==> recent(times.push(t), now, window) == recent(
            times,
            now,
            window,
        ).push(t),
        window == 0 ==> recent(times.push(t), now, window) == recent(times, now, window),
{
    let fresh = |t: u128| crate::auth::elapsed(now, t) < window;
    lemma_filter_none(Seq::<u128>::empty(), fresh);
    lemma_filter_push(times, t, fresh);
}

/// A request is let in where fewer than the limit count from its address, and then
/// counts itself. A request that is not let in does not count. What counts from other
/// addresses stays as it is.
pub proof fn law_request_is_let_in_below_the_limit(
    hits: Map<IpAddr, Seq<u128>>,
    ip: IpAddr,
    other: IpAddr,
    now: u128,
    window: u128,
    max: u32,
)
    ensures
        ({
            let counted = if hits.contains_key(ip) {
                recent(hits[ip], now, window)
            } else {
                Seq::<u128>::empty()
            };
            let after = hits_after(hits, ip, now, window, max);
            &&& lets_in(hits, ip, now, window, max) <==> counted.len() < max
            &&& after.contains_key(ip)
            &&& after[ip] == if counted.len() < max {
                counted.push(now)
            } else {
                counted
            }
            &&& other != ip ==> (after.contains_key(other) <==> hits.contains_key(other))
            &&& other != ip && hits.contains_key(other) ==> after[other] == hits[other]
        }),
{
    law_requests_are_counted_one_by_one(Seq::empty(), now, now, window);
    assert(times_of(hits, ip) == if hits.contains_key(ip) {
        hits[ip]
    } else {
        Seq::<u128>::empty()
    });
}

/// The sweep keeps what counts and drops the rest, and an address with nothing left.
pub proof fn law_sweep_keeps_what_counts(
    hits: Map<IpAddr, Seq<u128>>,
    ip: IpAddr,
    now: u128,
    window: u128,
)
    ensures
        hits_swept(hits, now, window).contains_key(ip) <==> hits.contains_key(ip) && recent(
            hits[ip],
            now,
            window,
        ).len() > 0,
        hits_swept(hits, now, window).contains_key(ip) ==> hits_swept(hits, now, window)[ip]
            == recent(hits[ip], now, window),
{
}

} // verus!
