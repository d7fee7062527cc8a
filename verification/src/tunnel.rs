//! The tunnel through which recipients reach the public listener: a program that
//! is started, watched by what it logs, and started again when it stops.
//!
//! What to do next is decided here, step by step. Doing it (starting the program,
//! reading a line, waiting) is left to the caller, who comes back with what
//! happened.

use crate::db::opt_view;
use crate::state::AppState;
use crate::text::{
    alphanumeric, chars_of, decimal, decimal_text, ends_with, find, find_text, has_prefix,
    has_suffix, is_alphanumeric, stands_at, text_of,
};
use vstd::prelude::*;
use vstd::slice::slice_subrange;

verus! {

/// The wait before the first new start, in seconds.
pub const FIRST_DELAY: u64 = 2;

/// The longest wait before a new start, in seconds.
pub const LONGEST_DELAY: u64 = 30;

/// How long a new host name gets to become known before it is told, in seconds.
pub const SETTLE_SECS: u64 = 5;

// ---------------------------------------------------------------------------
// What the program logs

/// The characters of an address.
pub open spec fn is_url_char(c: char) -> bool {
    is_alphanumeric(c) || c == ':' || c == '/' || c == '.' || c == '-'
}

/// The characters of an address that `s` begins with.
pub open spec fn url_run(s: Seq<char>) -> Seq<char>
    decreases s.len(),
{
    if s.len() == 0 || !is_url_char(s[0]) {
        Seq::empty()
    } else {
        seq![s[0]] + url_run(s.skip(1))
    }
}

/// The address of a quick tunnel in a line of the log: what begins with the first
/// `https://`, where it ends as such addresses do.
pub open spec fn tunnel_url(line: Seq<char>) -> Option<Seq<char>> {
    let at = find(line, "https://"@);
    if at < line.len() && has_suffix(url_run(line.skip(at)), ".trycloudflare.com"@) {
        Some(url_run(line.skip(at)))
    } else {
        None
    }
}

/// An address that a quick tunnel has.
pub open spec fn is_tunnel_url(url: Seq<char>) -> bool {
    has_prefix(url, "https://"@) && has_suffix(url, ".trycloudflare.com"@) && forall|i: int|
        0 <= i < url.len() ==> is_url_char(#[trigger] url[i])
}

proof fn lemma_url_run(s: Seq<char>)
    ensures
        url_run(s).len() <= s.len(),
        url_run(s) == s.take(url_run(s).len() as int),
        forall|i: int| 0 <= i < url_run(s).len() ==> is_url_char(#[trigger] s[i]),
        url_run(s).len() < s.len() ==> !is_url_char(s[url_run(s).len() as int]),
    decreases s.len(),
{
    if s.len() > 0 && is_url_char(s[0]) {
        lemma_url_run(s.skip(1));
        let rest = url_run(s.skip(1));
        assert(url_run(s) =~= s.take(1 + rest.len() as int)) by {
            assert forall|i: int| 0 <= i < url_run(s).len() implies url_run(s)[i] == s[i] by {
                if i > 0 {
                    assert(rest[i - 1] == s.skip(1).take(rest.len() as int)[i - 1]);
                    assert(s.skip(1)[i - 1] == s[i]);
                }
            }
        }
        assert forall|i: int| 0 <= i < url_run(s).len() implies is_url_char(#[trigger] s[i]) by {
            if i > 0 {
                assert(s.skip(1)[i - 1] == s[i]);
            }
        }
        if url_run(s).len() < s.len() {
            assert(s.skip(1)[rest.len() as int] == s[1 + rest.len() as int]);
        }
    } else {
        assert(url_run(s) =~= s.take(0));
    }
}

/// A stretch of address characters that stops at another one, or at the end, is
/// the one that `url_run` gives.
proof fn lemma_url_run_is(s: Seq<char>, n: int)
    requires
        0 <= n <= s.len(),
        forall|i: int| 0 <= i < n ==> is_url_char(#[trigger] s[i]),
        n < s.len() ==> !is_url_char(s[n]),
    ensures
        url_run(s) == s.take(n),
{
    lemma_url_run(s);
    let k = url_run(s).len() as int;
    if k < n {
        assert(is_url_char(s[k]));
    }
    if n < k {
        assert(is_url_char(s[n]));
    }
}

/// What begins a text begins a longer stretch of address characters.
proof fn lemma_find_stands(s: Seq<char>, part: Seq<char>)
    requires
        part.len() > 0,
        find(s, part) < s.len(),
    ensures
        0 <= find(s, part),
        has_prefix(s.skip(find(s, part)), part),
    decreases s.len(),
{
    if s.len() > 0 && !has_prefix(s, part) {
        lemma_find_stands(s.skip(1), part);
        assert(s.skip(1).skip(find(s.skip(1), part)) =~= s.skip(find(s, part)));
    } else {
        assert(s.skip(0) =~= s);
    }
}

/// What is taken for the address of a tunnel is one: it is reached by HTTPS, under
/// a name that quick tunnels have.
pub proof fn law_tunnel_url_is_safe(line: Seq<char>)
    requires
        tunnel_url(line) is Some,
    ensures
        is_tunnel_url(tunnel_url(line)->0),
{
    reveal_strlit("https://");
    let at = find(line, "https://"@);
    lemma_find_stands(line, "https://"@);
    let rest = line.skip(at);
    lemma_url_run(rest);
    let url = url_run(rest);
    let p = "https://"@;
    assert forall|i: int| 0 <= i < 8 implies rest[i] == p[i] by {
        assert(rest.take(8)[i] == rest[i]);
    }
    if url.len() < 8 {
        assert(!is_url_char(rest[url.len() as int]));
        assert(rest[url.len() as int] == p[url.len() as int]);
    }
    assert(url.take(8) =~= p);
    assert forall|i: int| 0 <= i < url.len() implies is_url_char(#[trigger] url[i]) by {
        assert(url[i] == rest[i]);
    }
}

/// The address of a quick tunnel in a line of the log, if there is one.
pub fn trycloudflare_url(line: &str) -> (r: Option<String>)
    ensures
        opt_view(r) == tunnel_url(line@),
{
    let chars = chars_of(line);
    let scheme = chars_of("https://");
    proof {
        reveal_strlit("https://");
    }
    let start: usize = match find_text(chars.as_slice(), scheme.as_slice()) {
        Some(start) => start,
        None => {
            return None;
        },
    };
    let n: usize = chars.len();
    let mut end: usize = start;
    while end < n && (alphanumeric(chars[end]) || chars[end] == ':' || chars[end] == '/'
        || chars[end] == '.' || chars[end] == '-')
        invariant
            n == chars@.len(),
            start <= end <= n,
            forall|i: int| start <= i < end ==> is_url_char(#[trigger] chars@[i]),
        decreases n - end,
    {
        end = end + 1;
    }
    let url = slice_subrange(chars.as_slice(), start, end);
    proof {
        let rest = chars@.skip(start as int);
        assert forall|i: int| 0 <= i < end - start implies is_url_char(#[trigger] rest[i]) by {
            assert(rest[i] == chars@[start + i]);
        }
        if end < n {
            assert(rest[end - start] == chars@[end as int]);
        }
        lemma_url_run_is(rest, end - start);
        assert(url@ =~= rest.take(end - start));
    }
    if ends_with(url, chars_of(".trycloudflare.com").as_slice()) {
        Some(text_of(url))
    } else {
        None
    }
}

/// Whether a text has a part somewhere.
pub open spec fn mentions(line: Seq<char>, part: Seq<char>) -> bool {
    exists|at: int| #[trigger] stands_at(line, part, at)
}

proof fn lemma_find_misses(s: Seq<char>, part: Seq<char>, at: int)
    requires
        part.len() > 0,
        stands_at(s, part, at),
    ensures
        find(s, part) <= at,
    decreases s.len(),
{
    if s.len() > 0 && !has_prefix(s, part) {
        if at == 0 {
            assert(s.take(part.len() as int) =~= s.subrange(0, part.len() as int));
        } else {
            assert(s.skip(1).subrange(at - 1, at - 1 + part.len() as int) =~= s.subrange(
                at,
                at + part.len() as int,
            ));
            lemma_find_misses(s.skip(1), part, at - 1);
        }
    }
}

/// Whether a line of the log says that the tunnel is known at the other end.
pub fn says_registered(line: &str) -> (r: bool)
    ensures
        r == mentions(line@, "Registered tunnel connection"@),
{
    proof {
        reveal_strlit("Registered tunnel connection");
    }
    let chars = chars_of(line);
    let part = chars_of("Registered tunnel connection");
    match find_text(chars.as_slice(), part.as_slice()) {
        Some(_) => true,
        None => {
            proof {
                if mentions(line@, part@) {
                    let at = choose|at: int| #[trigger] stands_at(line@, part@, at);
                    lemma_find_misses(line@, part@, at);
                }
            }
            false
        },
    }
}

/// The address of the public listener, for the program.
pub open spec fn target(public_port: u16) -> Seq<char> {
    "http://127.0.0.1:"@ + decimal(public_port as nat)
}

/// The arguments that the program is started with.
pub open spec fn arguments(config: Seq<char>, public_port: u16) -> Seq<Seq<char>> {
    seq![
        "--config"@,
        config,
        "tunnel"@,
        "--no-autoupdate"@,
        "--url"@,
        target(public_port),
    ]
}

/// The arguments that the program is started with.
pub fn tunnel_arguments(config: &str, public_port: u16) -> (r: Vec<String>)
    ensures
        r@.len() == 6,
        r@[0]@ == "--config"@,
        r@[1]@ == config@,
        r@[2]@ == "tunnel"@,
        r@[3]@ == "--no-autoupdate"@,
        r@[4]@ == "--url"@,
        r@[5]@ == target(public_port),
        r@.map_values(|a: String| a@) == arguments(config@, public_port),
{
    let mut target = "http://127.0.0.1:".to_string();
    target.append(decimal_text(public_port as u64).as_str());
    let mut r: Vec<String> = Vec::new();
    r.push("--config".to_string());
    r.push(config.to_string());
    r.push("tunnel".to_string());
    r.push("--no-autoupdate".to_string());
    r.push("--url".to_string());
    r.push(target);
    assert(r@.map_values(|a: String| a@) =~= arguments(config@, public_port));
    r
}

/// Which address is found in a line: of the characters of an address that begin with
/// the first `https://`, all of them, where they end as the address of a quick tunnel
/// does; otherwise none.
pub proof fn law_address_in_a_line(line: Seq<char>, at: int, end: int)
    requires
        0 <= at && at + 8 <= end <= line.len(),
        line.subrange(at, at + 8) == "https://"@,
        forall|i: int| 0 <= i < at ==> #[trigger] line.subrange(i, i + 8) != "https://"@,
        forall|i: int|
            at <= i < end ==> is_alphanumeric(#[trigger] line[i]) || line[i] == ':' || line[i] == '/'
                || line[i] == '.' || line[i] == '-',
        end < line.len() ==> !(is_alphanumeric(line[end]) || line[end] == ':' || line[end] == '/'
            || line[end] == '.' || line[end] == '-'),
    ensures
        tunnel_url(line) == if end - at >= 18 && line.subrange(end - 18, end)
            == ".trycloudflare.com"@ {
            Some(line.subrange(at, end))
        } else {
            None
        },
{
    reveal_strlit("https://");
    reveal_strlit(".trycloudflare.com");
    let part = "https://"@;
    assert(stands_at(line, part, at));
    lemma_find_misses(line, part, at);
    let k = find(line, part);
    lemma_find_stands(line, part);
    assert(line.skip(k).take(8) =~= line.subrange(k, k + 8));
    assert(k == at);
    let rest = line.skip(at);
    assert forall|i: int| 0 <= i < end - at implies is_url_char(#[trigger] rest[i]) by {
        assert(rest[i] == line[at + i]);
    }
    if end < line.len() {
        assert(rest[end - at] == line[end]);
    }
    lemma_url_run_is(rest, end - at);
    let url = url_run(rest);
    assert(url =~= line.subrange(at, end));
    if end - at >= 18 {
        assert(url.skip(url.len() - 18) =~= line.subrange(end - 18, end));
    }
}

/// In a line without `https://` no address is found.
pub proof fn law_line_without_address(line: Seq<char>)
    requires
        forall|i: int| 0 <= i <= line.len() - 8 ==> #[trigger] line.subrange(i, i + 8) != "https://"@,
    ensures
        tunnel_url(line) is None,
{
    reveal_strlit("https://");
    let part = "https://"@;
    let k = find(line, part);
    if k < line.len() {
        lemma_find_stands(line, part);
        assert(line.skip(k).take(8) =~= line.subrange(k, k + 8));
    }
}

// ---------------------------------------------------------------------------
// Step by step

/// How far the tunnel has got.
pub struct Tunnel {
    /// The wait before the next start, in seconds.
    pub retry_delay: u64,
    /// An address was told since the last start.
    pub connected: bool,
    /// The log said that the tunnel is known at the other end.
    pub registered: bool,
    /// An address that the log gave, and that waits for that.
    pub pending_url: Option<String>,
    /// An address that is about to be told.
    pub announcing: Option<String>,
}

#[verifier::ext_equal]
pub struct TunnelView {
    pub retry_delay: u64,
    pub connected: bool,
    pub registered: bool,
    pub pending_url: Option<Seq<char>>,
    pub announcing: Option<Seq<char>>,
}

impl View for Tunnel {
    type V = TunnelView;

    open spec fn view(&self) -> TunnelView {
        TunnelView {
            retry_delay: self.retry_delay,
            connected: self.connected,
            registered: self.registered,
            pending_url: opt_view(self.pending_url),
            announcing: opt_view(self.announcing),
        }
    }
}

/// What happened.
pub enum TunnelEvent {
    /// It was looked whether the program is there.
    Looked { present: bool },
    /// The wait before a new start is over.
    Waited,
    /// The program could not be started.
    NotStarted,
    /// The program runs, but its log cannot be read.
    NoLog,
    /// The program runs.
    Started,
    /// The log has a new line.
    Line { line: String },
    /// The new host name had time to become known.
    Settled,
    /// The log has ended, and the program with it.
    Ended,
}

/// What to do next.
#[derive(Clone, Copy, Debug, PartialEq, Eq, Structural)]
pub enum TunnelAction {
    /// Nothing more.
    Stop,
    /// Start the program.
    Start,
    /// Read the next line of the log.
    Read,
    /// Wait that many seconds for the new host name to become known.
    Settle { secs: u64 },
    /// Wait that many seconds before the next start.
    Wait { secs: u64 },
}

/// The wait after a wait.
pub open spec fn next_delay(delay: u64) -> u64 {
    if delay * 2 <= LONGEST_DELAY {
        (delay * 2) as u64
    } else {
        LONGEST_DELAY
    }
}

/// What a step comes to: how far the tunnel has got, what to do next, the status
/// to show if it changes, and the address to tell if there is one.
#[verifier::ext_equal]
pub struct StepView {
    pub tunnel: TunnelView,
    pub action: TunnelAction,
    pub status: Option<Seq<char>>,
    pub base_url: Option<Seq<char>>,
}

impl TunnelView {
    pub open spec fn new() -> TunnelView {
        TunnelView {
            retry_delay: FIRST_DELAY,
            connected: false,
            registered: false,
            pending_url: None,
            announcing: None,
        }
    }

    /// What holds at all times: the wait lies in its bounds, and an address that
    /// waits to be told is one of a quick tunnel. It is told only once the
    /// tunnel is known at the other end.
    pub open spec fn sound(self) -> bool {
        &&& FIRST_DELAY <= self.retry_delay <= LONGEST_DELAY
        &&& self.pending_url matches Some(url) ==> is_tunnel_url(url)
        &&& self.announcing matches Some(url) ==> is_tunnel_url(url) && self.registered
    }

    /// After a line of the log: an address in it waits to be told, and is about to
    /// be once the tunnel is known at the other end.
    pub open spec fn after_line(self, line: Seq<char>) -> TunnelView {
        let registered = self.registered || mentions(line, "Registered tunnel connection"@);
        let pending = match tunnel_url(line) {
            Some(url) => Some(url),
            None => self.pending_url,
        };
        TunnelView {
            registered: registered,
            pending_url: if registered {
                None
            } else {
                pending
            },
            announcing: if registered {
                pending
            } else {
                None
            },
            ..self
        }
    }

    pub open spec fn step(self, event: TunnelEvent) -> StepView {
        let still = StepView {
            tunnel: self,
            action: TunnelAction::Read,
            status: None,
            base_url: None,
        };
        match event {
            TunnelEvent::Looked { present } => if present {
                StepView { action: TunnelAction::Start, status: Some("starting"@), ..still }
            } else {
                StepView {
                    action: TunnelAction::Stop,
                    status: Some("cloudflared_missing"@),
                    ..still
                }
            },
            TunnelEvent::Waited => StepView {
                action: TunnelAction::Start,
                status: Some("starting"@),
                ..still
            },
            TunnelEvent::NotStarted => StepView {
                tunnel: TunnelView { retry_delay: next_delay(self.retry_delay), ..self },
                action: TunnelAction::Wait { secs: self.retry_delay },
                status: Some("start_failed"@),
                ..still
            },
            TunnelEvent::NoLog => StepView {
                action: TunnelAction::Stop,
                status: Some("start_failed"@),
                ..still
            },
            TunnelEvent::Started => StepView {
                tunnel: TunnelView { retry_delay: self.retry_delay, ..TunnelView::new() },
                ..still
            },
            TunnelEvent::Line { line } => {
                let after = self.after_line(line@);
                StepView {
                    tunnel: after,
                    action: if after.announcing is Some {
                        TunnelAction::Settle { secs: SETTLE_SECS }
                    } else {
                        TunnelAction::Read
                    },
                    ..still
                }
            },
            TunnelEvent::Settled => match self.announcing {
                Some(url) => StepView {
                    tunnel: TunnelView {
                        retry_delay: FIRST_DELAY,
                        connected: true,
                        announcing: None,
                        ..self
                    },
                    status: Some("connected"@),
                    base_url: Some(url),
                    ..still
                },
                None => still,
            },
            TunnelEvent::Ended => StepView {
                tunnel: TunnelView { retry_delay: next_delay(self.retry_delay), ..self },
                action: TunnelAction::Wait { secs: self.retry_delay },
                status: Some(
                    if self.connected {
                        "reconnecting"@
                    } else {
                        "failed"@
                    },
                ),
                ..still
            },
        }
    }
}

/// Every step keeps what holds of the tunnel: the waits double from the first to
/// the longest and never leave these bounds, and no address is told but one of a
/// quick tunnel that is known at the other end.
pub proof fn law_tunnel_stays_sound(tunnel: TunnelView, event: TunnelEvent)
    requires
        tunnel.sound(),
    ensures
        tunnel.step(event).tunnel.sound(),
        tunnel.step(event).base_url matches Some(url) ==> is_tunnel_url(url) && tunnel.registered,
        tunnel.step(event).action matches TunnelAction::Wait { secs } ==> FIRST_DELAY <= secs
            <= LONGEST_DELAY,
{
    if let TunnelEvent::Line { line } = event {
        if tunnel_url(line@) is Some {
            law_tunnel_url_is_safe(line@);
        }
    }
}

/// The status that is shown after a step.
pub open spec fn shown(before: Seq<char>, change: Option<Seq<char>>) -> Seq<char> {
    match change {
        Some(now) => now,
        None => before,
    }
}

impl Tunnel {
    /// A tunnel that was not started yet.
    pub fn new() -> (r: Tunnel)
        ensures
            r@ == TunnelView::new(),
            r@.sound(),
    {
        Tunnel {
            retry_delay: FIRST_DELAY,
            connected: false,
            registered: false,
            pending_url: None,
            announcing: None,
        }
    }

    fn wait(&mut self) -> (r: TunnelAction)
        requires
            old(self)@.sound(),
        ensures
            r == (TunnelAction::Wait { secs: old(self)@.retry_delay }),
            final(self)@ == (TunnelView {
                retry_delay: next_delay(old(self)@.retry_delay),
                ..old(self)@
            }),
    {
        let secs: u64 = self.retry_delay;
        self.retry_delay = if secs * 2 <= LONGEST_DELAY {
            secs * 2
        } else {
            LONGEST_DELAY
        };
        TunnelAction::Wait { secs }
    }

    fn read_line(&mut self, line: &str) -> (r: TunnelAction)
        ensures
            final(self)@ == old(self)@.after_line(line@),
            r == if final(self)@.announcing is Some {
                (TunnelAction::Settle { secs: SETTLE_SECS })
            } else {
                TunnelAction::Read
            },
    {
        if let Some(url) = trycloudflare_url(line) {
            self.pending_url = Some(url);
        }
        if says_registered(line) {
            self.registered = true;
        }
        self.announcing = None;
        if self.registered {
            self.announcing = self.pending_url.take();
        }
        if self.announcing.is_some() {
            TunnelAction::Settle { secs: SETTLE_SECS }
        } else {
            TunnelAction::Read
        }
    }

    /// What to do after an event. The status that the dashboard shows, and the
    /// address that recipients are given, follow the tunnel.
    pub fn step(&mut self, state: &mut AppState, event: TunnelEvent) -> (r: TunnelAction)
        requires
            old(self)@.sound(),
            old(state).wf(),
        ensures
            final(self)@.sound(),
            final(state).wf(),
            ({
                let step = old(self)@.step(event);
                &&& final(self)@ == step.tunnel
                &&& r == step.action
                &&& final(state).tunnel_status@ == shown(old(state).tunnel_status@, step.status)
                &&& final(state).public_base_url@ == shown(
                    old(state).public_base_url@,
                    step.base_url,
                )
            }),
            final(state).config == old(state).config,
            final(state).rate_limiter == old(state).rate_limiter,
            final(state).unlock_tokens == old(state).unlock_tokens,
            final(state).download_sessions == old(state).download_sessions,
    {
        proof {
            law_tunnel_stays_sound(self@, event);
        }
        match event {
            TunnelEvent::Looked { present } => if present {
                state.set_tunnel_status("starting".to_string());
                TunnelAction::Start
            } else {
                state.set_tunnel_status("cloudflared_missing".to_string());
                TunnelAction::Stop
            },
            TunnelEvent::Waited => {
                state.set_tunnel_status("starting".to_string());
                TunnelAction::Start
            },
            TunnelEvent::NotStarted => {
                state.set_tunnel_status("start_failed".to_string());
                self.wait()
            },
            TunnelEvent::NoLog => {
                state.set_tunnel_status("start_failed".to_string());
                TunnelAction::Stop
            },
            TunnelEvent::Started => {
                self.connected = false;
                self.registered = false;
                self.pending_url = None;
                self.announcing = None;
                TunnelAction::Read
            },
            TunnelEvent::Line { line } => self.read_line(line.as_str()),
            TunnelEvent::Settled => {
                if let Some(url) = self.announcing.take() {
                    state.set_public_base_url(url);
                    self.connected = true;
                    self.retry_delay = FIRST_DELAY;
                }
                TunnelAction::Read
            },
            TunnelEvent::Ended => {
                let status = if self.connected {
                    "reconnecting".to_string()
                } else {
                    "failed".to_string()
                };
                state.set_tunnel_status(status);
                self.wait()
            },
        }
    }
}

} // verus!
