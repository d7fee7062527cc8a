//! Configuration, and what the running server keeps in memory.

use crate::auth::RateLimiter;
use crate::net::IpAddr;
use crate::table::{place_of, Table};
use crate::text::{
    chars_of, lowercase, parse_unsigned, same_text, text_of, to_lowercase, unsigned_value,
};
use vstd::prelude::*;
use vstd::slice::slice_subrange;

verus! {

/// One second on the clock that the server measures stretches of time with.
pub const NANOS_PER_SEC: u128 = 1_000_000_000;

/// The most bytes that a share may have, where nothing else is configured.
pub const DEFAULT_MAX_UPLOAD_BYTES: u64 = 50 * 1024 * 1024 * 1024;

// ---------------------------------------------------------------------------
// Configuration

pub struct Config {
    pub bind_addr: String,
    pub public_bind_addr: String,
    pub public_base_url: String,
    pub auto_tunnel: bool,
    pub storage_dir: String,
    pub db_path: String,
    pub max_upload_bytes: u64,
    pub global_rate_limit_per_min: u32,
    pub failed_auth_max: i64,
    pub failed_auth_window_secs: i64,
    pub unlock_token_ttl_secs: u64,
    /// Bytes per second on each download connection. Zero is no limit.
    pub bandwidth_bytes_per_sec: u64,
}

/// The values of the environment variables that configure the server, each where
/// it is set.
pub struct EnvVars {
    /// `TEMPSHARE_STORAGE_DIR`
    pub storage_dir: Option<String>,
    /// `TEMPSHARE_DB_PATH`
    pub db_path: Option<String>,
    /// `TEMPSHARE_BIND_ADDR`
    pub bind_addr: Option<String>,
    /// `TEMPSHARE_PUBLIC_BIND_ADDR`
    pub public_bind_addr: Option<String>,
    /// `TEMPSHARE_PUBLIC_BASE_URL`
    pub public_base_url: Option<String>,
    /// `TEMPSHARE_AUTO_TUNNEL`
    pub auto_tunnel: Option<String>,
    /// `TEMPSHARE_MAX_UPLOAD_BYTES`
    pub max_upload_bytes: Option<String>,
    /// `TEMPSHARE_RATE_LIMIT_PER_MIN`
    pub rate_limit_per_min: Option<String>,
    /// `TEMPSHARE_UNLOCK_TOKEN_TTL_SECS`
    pub unlock_token_ttl_secs: Option<String>,
    /// `TEMPSHARE_BANDWIDTH_BYTES_PER_SEC`
    pub bandwidth_bytes_per_sec: Option<String>,
}

/// The value of a variable, or the default where it is not set.
pub open spec fn or_default(value: Option<String>, default: Seq<char>) -> Seq<char> {
    match value {
        Some(v) => v@,
        None => default,
    }
}

/// The number that a variable holds, or the default where it is not set or holds
/// no number from 0 to `max`.
pub open spec fn number_or(value: Option<String>, max: int, default: int) -> int {
    match value {
        Some(v) => match unsigned_value(v@, max) {
            Some(n) => n,
            None => default,
        },
        None => default,
    }
}

/// The text without the slashes at its end.
pub open spec fn without_slashes(s: Seq<char>) -> Seq<char>
    decreases s.len(),
{
    if s.len() > 0 && s.last() == '/' {
        without_slashes(s.drop_last())
    } else {
        s
    }
}

/// The values that switch something on, in any case.
pub open spec fn is_yes(s: Seq<char>) -> bool {
    lowercase(s) == "1"@ || lowercase(s) == "true"@ || lowercase(s) == "yes"@
}

/// Whether a configuration is the one that the environment gives.
pub open spec fn configured(vars: EnvVars, c: Config) -> bool {
    &&& c.bind_addr@ == or_default(vars.bind_addr, "127.0.0.1:7420"@)
    &&& c.public_bind_addr@ == or_default(vars.public_bind_addr, "127.0.0.1:7421"@)
    &&& c.public_base_url@ == without_slashes(
        or_default(vars.public_base_url, "http://127.0.0.1:7421"@),
    )
    &&& c.auto_tunnel == (vars.auto_tunnel matches Some(v) && is_yes(v@))
    &&& c.storage_dir@ == or_default(vars.storage_dir, "./data/shared_files"@)
    &&& c.db_path@ == or_default(vars.db_path, "./data/tempshare.db"@)
    &&& c.max_upload_bytes == number_or(
        vars.max_upload_bytes,
        u64::MAX as int,
        DEFAULT_MAX_UPLOAD_BYTES as int,
    )
    &&& c.global_rate_limit_per_min == number_or(vars.rate_limit_per_min, u32::MAX as int, 120)
    &&& c.failed_auth_max == 5
    &&& c.failed_auth_window_secs == 300
    &&& c.unlock_token_ttl_secs == number_or(vars.unlock_token_ttl_secs, u64::MAX as int, 900)
    &&& c.bandwidth_bytes_per_sec == number_or(vars.bandwidth_bytes_per_sec, u64::MAX as int, 0)
}

fn text_or(value: Option<String>, default: &str) -> (r: String)
    ensures
        r@ == or_default(value, default@),
{
    match value {
        Some(v) => v,
        None => default.to_string(),
    }
}

fn unsigned_or(value: Option<String>, max: u64, default: u64) -> (r: u64)
    requires
        default <= max,
    ensures
        r == number_or(value, max as int, default as int),
        r <= max,
{
    match value {
        Some(v) => {
            let chars = chars_of(v.as_str());
            match parse_unsigned(chars.as_slice(), max) {
                Some(n) => n,
                None => default,
            }
        },
        None => default,
    }
}

fn strip_slashes(s: &str) -> (r: String)
    ensures
        r@ == without_slashes(s@),
{
    let chars = chars_of(s);
    let mut end: usize = chars.len();
    assert(chars@.take(end as int) =~= s@);
    while end > 0 && chars[end - 1] == '/'
        invariant
            end <= chars@.len(),
            without_slashes(chars@.take(end as int)) == without_slashes(s@),
        decreases end,
    {
        assert(chars@.take(end as int).drop_last() =~= chars@.take(end - 1));
        end = end - 1;
    }
    let kept = slice_subrange(chars.as_slice(), 0, end);
    assert(kept@ =~= chars@.take(end as int));
    text_of(kept)
}

impl Config {
    /// The configuration that the environment gives, with a default for
    /// everything that it does not.
    pub fn from_env(vars: EnvVars) -> (r: Config)
        ensures
            r.bind_addr@ == or_default(vars.bind_addr, "127.0.0.1:7420"@),
            r.public_bind_addr@ == or_default(vars.public_bind_addr, "127.0.0.1:7421"@),
            r.public_base_url@ == without_slashes(
                or_default(vars.public_base_url, "http://127.0.0.1:7421"@),
            ),
            r.auto_tunnel == (vars.auto_tunnel matches Some(v) && is_yes(v@)),
            r.storage_dir@ == or_default(vars.storage_dir, "./data/shared_files"@),
            r.db_path@ == or_default(vars.db_path, "./data/tempshare.db"@),
            r.max_upload_bytes == number_or(
                vars.max_upload_bytes,
                u64::MAX as int,
                DEFAULT_MAX_UPLOAD_BYTES as int,
            ),
            r.global_rate_limit_per_min == number_or(vars.rate_limit_per_min, u32::MAX as int, 120),
            r.failed_auth_max == 5,
            r.failed_auth_window_secs == 300,
            r.unlock_token_ttl_secs == number_or(vars.unlock_token_ttl_secs, u64::MAX as int, 900),
            r.bandwidth_bytes_per_sec == number_or(
                vars.bandwidth_bytes_per_sec,
                u64::MAX as int,
                0,
            ),
            configured(vars, r),
    {
        let base_url = text_or(vars.public_base_url, "http://127.0.0.1:7421");
        let auto_tunnel = match vars.auto_tunnel {
            Some(v) => {
                let v = to_lowercase(v.as_str());
                same_text(v.as_str(), "1") || same_text(v.as_str(), "true") || same_text(
                    v.as_str(),
                    "yes",
                )
            },
            None => false,
        };
        Config {
            bind_addr: text_or(vars.bind_addr, "127.0.0.1:7420"),
            public_bind_addr: text_or(vars.public_bind_addr, "127.0.0.1:7421"),
            public_base_url: strip_slashes(base_url.as_str()),
            auto_tunnel,
            storage_dir: text_or(vars.storage_dir, "./data/shared_files"),
            db_path: text_or(vars.db_path, "./data/tempshare.db"),
            max_upload_bytes: unsigned_or(vars.max_upload_bytes, u64::MAX, DEFAULT_MAX_UPLOAD_BYTES),
            global_rate_limit_per_min: unsigned_or(
                vars.rate_limit_per_min,
                u32::MAX as u64,
                120,
            ) as u32,
            failed_auth_max: 5,
            failed_auth_window_secs: 300,
            unlock_token_ttl_secs: unsigned_or(vars.unlock_token_ttl_secs, u64::MAX, 900),
            bandwidth_bytes_per_sec: unsigned_or(vars.bandwidth_bytes_per_sec, u64::MAX, 0),
        }
    }
}

// ---------------------------------------------------------------------------
// State

/// What a token that was given out for a password is good for.
pub struct UnlockToken {
    pub share_id: String,
    pub client_ip: IpAddr,
    pub expires_at: u128,
}

/// The visit of one recipient. However often the download is resumed in it, it
/// is counted once.
pub struct DownloadSession {
    pub share_id: String,
    pub client_ip: IpAddr,
    pub expires_at: u128,
    pub counted: bool,
}

#[verifier::ext_equal]
pub struct TokenView {
    pub share_id: Seq<char>,
    pub client_ip: IpAddr,
    pub expires_at: u128,
}

#[verifier::ext_equal]
pub struct SessionView {
    pub share_id: Seq<char>,
    pub client_ip: IpAddr,
    pub expires_at: u128,
    pub counted: bool,
}

impl View for UnlockToken {
    type V = TokenView;

    open spec fn view(&self) -> TokenView {
        TokenView {
            share_id: self.share_id@,
            client_ip: self.client_ip,
            expires_at: self.expires_at,
        }
    }
}

impl View for DownloadSession {
    type V = SessionView;

    open spec fn view(&self) -> SessionView {
        SessionView {
            share_id: self.share_id@,
            client_ip: self.client_ip,
            expires_at: self.expires_at,
            counted: self.counted,
        }
    }
}

impl Clone for UnlockToken {
    fn clone(&self) -> (r: Self)
        ensures
            r@ == self@,
    {
        UnlockToken {
            share_id: self.share_id.clone(),
            client_ip: self.client_ip,
            expires_at: self.expires_at,
        }
    }
}

impl Clone for DownloadSession {
    fn clone(&self) -> (r: Self)
        ensures
            r@ == self@,
    {
        DownloadSession {
            share_id: self.share_id.clone(),
            client_ip: self.client_ip,
            expires_at: self.expires_at,
            counted: self.counted,
        }
    }
}

/// The tokens that are still good at `now`.
pub open spec fn live_tokens(tokens: Map<Seq<char>, TokenView>, now: u128) -> Map<
    Seq<char>,
    TokenView,
> {
    Map::new(
        |t: Seq<char>| tokens.contains_key(t) && tokens[t].expires_at > now,
        |t: Seq<char>| tokens[t],
    )
}

/// The sessions that are still open at `now`.
pub open spec fn live_sessions(sessions: Map<Seq<char>, SessionView>, now: u128) -> Map<
    Seq<char>,
    SessionView,
> {
    Map::new(
        |t: Seq<char>| sessions.contains_key(t) && sessions[t].expires_at > now,
        |t: Seq<char>| sessions[t],
    )
}

/// What the server keeps in memory, apart from the registry.
pub struct AppState {
    pub config: Config,
    pub rate_limiter: RateLimiter,
    /// Which tokens were given out for a password, so that it does not have to
    /// be sent again with every piece of a download.
    pub unlock_tokens: Table<String, UnlockToken>,
    pub download_sessions: Table<String, DownloadSession>,
    /// Where recipients reach the public listener.
    pub public_base_url: String,
    /// How the tunnel is doing.
    pub tunnel_status: String,
}

impl AppState {
    /// What is kept in memory at the start.
    pub open spec fn fresh(&self, config: Config) -> bool {
        &&& self.config == config
        &&& self.rate_limiter.max_requests() == config.global_rate_limit_per_min
        &&& self.rate_limiter.window() == 60 * NANOS_PER_SEC
        &&& self.rate_limiter.hits() == Map::<IpAddr, Seq<u128>>::empty()
        &&& self.unlock_tokens@ == Map::<Seq<char>, TokenView>::empty()
        &&& self.download_sessions@ == Map::<Seq<char>, SessionView>::empty()
        &&& self.public_base_url@ == config.public_base_url@
        &&& self.tunnel_status@ == if config.auto_tunnel {
            "starting"@
        } else {
            "disabled"@
        }
    }

    pub open spec fn wf(&self) -> bool {
        self.rate_limiter.wf() && self.unlock_tokens.wf() && self.download_sessions.wf()
    }

    pub fn new(config: Config) -> (r: AppState)
        ensures
            r.wf(),
            r.config == config,
            r.rate_limiter.max_requests() == config.global_rate_limit_per_min,
            r.rate_limiter.window() == 60 * NANOS_PER_SEC,
            r.rate_limiter.hits() == Map::<IpAddr, Seq<u128>>::empty(),
            r.unlock_tokens@ == Map::<Seq<char>, TokenView>::empty(),
            r.download_sessions@ == Map::<Seq<char>, SessionView>::empty(),
            r.public_base_url@ == config.public_base_url@,
            r.tunnel_status@ == if config.auto_tunnel {
                "starting"@
            } else {
                "disabled"@
            },
            r.fresh(config),
    {
        let public_base_url = config.public_base_url.clone();
        let tunnel_status = if config.auto_tunnel {
            "starting".to_string()
        } else {
            "disabled".to_string()
        };
        AppState {
            rate_limiter: RateLimiter::new(config.global_rate_limit_per_min, 60 * NANOS_PER_SEC),
            config,
            unlock_tokens: Table::new(),
            download_sessions: Table::new(),
            public_base_url,
            tunnel_status,
        }
    }

    pub fn public_base_url(&self) -> (r: String)
        ensures
            r@ == self.public_base_url@,
    {
        self.public_base_url.clone()
    }

    /// The tunnel is up under this address.
    pub fn set_public_base_url(&mut self, url: String)
        ensures
            final(self).public_base_url@ == url@,
            final(self).tunnel_status@ == "connected"@,
            final(self).config == old(self).config,
            final(self).rate_limiter == old(self).rate_limiter,
            final(self).unlock_tokens == old(self).unlock_tokens,
            final(self).download_sessions == old(self).download_sessions,
    {
        self.public_base_url = url;
        self.tunnel_status = "connected".to_string();
    }

    pub fn set_tunnel_status(&mut self, status: String)
        ensures
            final(self).tunnel_status@ == status@,
            final(self).public_base_url@ == old(self).public_base_url@,
            final(self).config == old(self).config,
            final(self).rate_limiter == old(self).rate_limiter,
            final(self).unlock_tokens == old(self).unlock_tokens,
            final(self).download_sessions == old(self).download_sessions,
    {
        self.tunnel_status = status;
    }

    pub fn tunnel_status(&self) -> (r: String)
        ensures
            r@ == self.tunnel_status@,
    {
        self.tunnel_status.clone()
    }

    /// Drops the tokens and the sessions whose time is over.
    pub fn sweep_unlock_tokens(&mut self, now: u128)
        requires
            old(self).wf(),
        ensures
            final(self).wf(),
            final(self).unlock_tokens@ == live_tokens(old(self).unlock_tokens@, now),
            final(self).download_sessions@ == live_sessions(old(self).download_sessions@, now),
            final(self).config == old(self).config,
            final(self).rate_limiter == old(self).rate_limiter,
            final(self).public_base_url@ == old(self).public_base_url@,
            final(self).tunnel_status@ == old(self).tunnel_status@,
    {
        let mut i: usize = 0;
        let ghost tokens = self.unlock_tokens@;
        proof {
            self.unlock_tokens.lemma_rows();
        }
        while i < self.unlock_tokens.len()
            invariant
                self.wf(),
                self.config == old(self).config,
                self.rate_limiter == old(self).rate_limiter,
                self.public_base_url@ == old(self).public_base_url@,
                self.tunnel_status@ == old(self).tunnel_status@,
                self.download_sessions == old(self).download_sessions,
                i <= self.unlock_tokens.pairs().len(),
                forall|t: Seq<char>| #[trigger]
                    self.unlock_tokens@.contains_key(t) ==> tokens.contains_key(t) && tokens[t]
                        == self.unlock_tokens@[t],
                forall|t: Seq<char>| #[trigger]
                    tokens.contains_key(t) && tokens[t].expires_at > now
                        ==> self.unlock_tokens@.contains_key(t),
                forall|j: int|
                    0 <= j < i ==> (#[trigger] self.unlock_tokens.pairs()[j]).1.expires_at > now,
            decreases self.unlock_tokens.pairs().len() - i,
        {
            proof {
                self.unlock_tokens.lemma_rows();
                assert(self.unlock_tokens@.contains_key(self.unlock_tokens.pairs()[i as int].0));
            }
            if self.unlock_tokens.row_at(i).expires_at > now {
                i = i + 1;
            } else {
                let ghost before = self.unlock_tokens.pairs();
                self.unlock_tokens.remove_at(i);
                assert forall|j: int| 0 <= j < i implies (
                #[trigger] self.unlock_tokens.pairs()[j]).1.expires_at > now by {
                    assert(self.unlock_tokens.pairs()[j] == before[j]);
                }
            }
        }
        proof {
            self.unlock_tokens.lemma_rows();
            let pairs = self.unlock_tokens.pairs();
            assert forall|t: Seq<char>| #[trigger] self.unlock_tokens@.contains_key(
                t,
            ) implies self.unlock_tokens@[t].expires_at > now by {
                let j = place_of(pairs, t);
                assert(pairs[j].1.expires_at > now);
            }
            assert(self.unlock_tokens@ =~= live_tokens(tokens, now));
        }
        let mut k: usize = 0;
        let ghost sessions = self.download_sessions@;
        proof {
            self.download_sessions.lemma_rows();
        }
        while k < self.download_sessions.len()
            invariant
                self.wf(),
                self.config == old(self).config,
                self.rate_limiter == old(self).rate_limiter,
                self.public_base_url@ == old(self).public_base_url@,
                self.tunnel_status@ == old(self).tunnel_status@,
                self.unlock_tokens@ == live_tokens(tokens, now),
                k <= self.download_sessions.pairs().len(),
                forall|t: Seq<char>| #[trigger]
                    self.download_sessions@.contains_key(t) ==> sessions.contains_key(t)
                        && sessions[t] == self.download_sessions@[t],
                forall|t: Seq<char>| #[trigger]
                    sessions.contains_key(t) && sessions[t].expires_at > now
                        ==> self.download_sessions@.contains_key(t),
                forall|j: int|
                    0 <= j < k ==> (#[trigger] self.download_sessions.pairs()[j]).1.expires_at
                        > now,
            decreases self.download_sessions.pairs().len() - k,
        {
            proof {
                self.download_sessions.lemma_rows();
                assert(self.download_sessions@.contains_key(
                    self.download_sessions.pairs()[k as int].0,
                ));
            }
            if self.download_sessions.row_at(k).expires_at > now {
                k = k + 1;
            } else {
                let ghost before = self.download_sessions.pairs();
                self.download_sessions.remove_at(k);
                assert forall|j: int| 0 <= j < k implies (
                #[trigger] self.download_sessions.pairs()[j]).1.expires_at > now by {
                    assert(self.download_sessions.pairs()[j] == before[j]);
                }
            }
        }
        proof {
            self.download_sessions.lemma_rows();
            let pairs = self.download_sessions.pairs();
            assert forall|t: Seq<char>| #[trigger] self.download_sessions@.contains_key(
                t,
            ) implies self.download_sessions@[t].expires_at > now by {
                let j = place_of(pairs, t);
                assert(pairs[j].1.expires_at > now);
            }
            assert(self.download_sessions@ =~= live_sessions(sessions, now));
        }
    }
}

} // verus!
