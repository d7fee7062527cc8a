//! What holds of requests and of guesses at a password, however they arrive.

use crate::auth::{elapsed, hits_after, hits_swept, lets_in, recent, times_of};
use crate::db::{failures_since, FailureView, RegistryView};
use crate::download::{
    registry_after_unlock, servable, tokens_after_unlock, unlock_answer, verdict, UnlockView,
    Verdict,
};
use crate::error::ErrorView;
use crate::laws::filters::{
    lemma_filter_filter, lemma_filter_none, lemma_filter_push, lemma_filter_shrinks,
    lemma_filter_wider,
};
use crate::net::IpAddr;
use crate::state::TokenView;
use vstd::prelude::*;

verus! {

// ---------------------------------------------------------------------------
// Requests

/// What happens to the record of requests.
pub enum LimiterStep {
    Request { ip: IpAddr, tick: u128 },
    Sweep { tick: u128 },
}

pub open spec fn tick_of(step: LimiterStep) -> u128 {
    match step {
        LimiterStep::Request { tick, .. } => tick,
        LimiterStep::Sweep { tick } => tick,
    }
}

/// The record after a number of steps.
pub open spec fn hits_after_all(
    hits: Map<IpAddr, Seq<u128>>,
    steps: Seq<LimiterStep>,
    window: u128,
    max: u32,
) -> Map<IpAddr, Seq<u128>>
    decreases steps.len(),
{
    if steps.len() == 0 {
        hits
    } else {
        let before = hits_after_all(hits, steps.drop_last(), window, max);
        match steps.last() {
            LimiterStep::Request { ip, tick } => hits_after(before, ip, tick, window, max),
            LimiterStep::Sweep { tick } => hits_swept(before, tick, window),
        }
    }
}

/// How many requests of an address are let in.
pub open spec fn let_in(
    hits: Map<IpAddr, Seq<u128>>,
    steps: Seq<LimiterStep>,
    ip: IpAddr,
    window: u128,
    max: u32,
) -> int
    decreases steps.len(),
{
    if steps.len() == 0 {
        0
    } else {
        let before = hits_after_all(hits, steps.drop_last(), window, max);
        let_in(hits, steps.drop_last(), ip, window, max) + match steps.last() {
            LimiterStep::Request { ip: from, tick } => if from == ip && lets_in(
                before,
                ip,
                tick,
                window,
                max,
            ) {
                1int
            } else {
                0
            },
            _ => 0,
        }
    }
}

/// The times from `start` on.
spec fn since(times: Seq<u128>, start: u128) -> Seq<u128> {
    times.filter(|t: u128| t >= start)
}

/// Times from `start` on still count at a tick less than a window later.
proof fn lemma_since_is_recent(times: Seq<u128>, start: u128, tick: u128, window: u128)
    requires
        start <= tick < start + window,
    ensures
        since(recent(times, tick, window), start) == since(times, start),
        since(times, start).len() <= recent(times, tick, window).len(),
{
    let late = |t: u128| t >= start;
    let fresh = |t: u128| elapsed(tick, t) < window;
    lemma_filter_filter(times, fresh, late);
    lemma_filter_wider(times, late, fresh);
}

proof fn lemma_let_in(
    hits: Map<IpAddr, Seq<u128>>,
    steps: Seq<LimiterStep>,
    ip: IpAddr,
    window: u128,
    max: u32,
    start: u128,
)
    requires
        forall|i: int|
            0 <= i < steps.len() ==> start <= tick_of(#[trigger] steps[i]) < start + window,
    ensures
        let_in(hits, steps, ip, window, max) <= since(
            times_of(hits_after_all(hits, steps, window, max), ip),
            start,
        ).len(),
        let_in(hits, steps, ip, window, max) <= max,
    decreases steps.len(),
{
    if steps.len() > 0 {
        let front = steps.drop_last();
        assert forall|i: int| 0 <= i < front.len() implies start <= tick_of(#[trigger] front[i])
            < start + window by {
            assert(front[i] == steps[i]);
        }
        lemma_let_in(hits, front, ip, window, max, start);
        let before = hits_after_all(hits, front, window, max);
        let past = times_of(before, ip);
        let tick = tick_of(steps[steps.len() - 1]);
        lemma_since_is_recent(past, start, tick, window);
        match steps.last() {
            LimiterStep::Request { ip: from, .. } => {
                if from == ip {
                    lemma_filter_push(recent(past, tick, window), tick, |t: u128| t >= start);
                }
            },
            LimiterStep::Sweep { .. } => {
                let swept = hits_swept(before, tick, window);
                lemma_filter_none(Seq::<u128>::empty(), |t: u128| t >= start);
                if !swept.contains_key(ip) {
                    if before.contains_key(ip) {
                        assert(recent(past, tick, window).len() == 0);
                        assert(recent(past, tick, window) =~= Seq::<u128>::empty());
                    }
                    assert(times_of(swept, ip) =~= Seq::<u128>::empty());
                }
            },
        }
    }
}

/// In any stretch of time as long as the window, no more requests of one address
/// are let in than the limit allows, whatever was recorded before, whoever else
/// sends requests, and however often the record is swept.
pub proof fn law_requests_stay_within_the_limit(
    hits: Map<IpAddr, Seq<u128>>,
    steps: Seq<LimiterStep>,
    ip: IpAddr,
    window: u128,
    max: u32,
    start: u128,
)
    requires
        forall|i: int|
            0 <= i < steps.len() ==> start <= tick_of(#[trigger] steps[i]) < start + window,
    ensures
        let_in(hits, steps, ip, window, max) <= max,
{
    lemma_let_in(hits, steps, ip, window, max, start);
}

/// Sweeping the record changes no decision that comes later.
pub proof fn law_sweep_is_not_noticed(
    hits: Map<IpAddr, Seq<u128>>,
    ip: IpAddr,
    swept: u128,
    now: u128,
    window: u128,
    max: u32,
)
    requires
        swept <= now,
    ensures
        recent(times_of(hits_swept(hits, swept, window), ip), now, window) == recent(
            times_of(hits, ip),
            now,
            window,
        ),
        lets_in(hits_swept(hits, swept, window), ip, now, window, max) == lets_in(
            hits,
            ip,
            now,
            window,
            max,
        ),
{
    let then = |t: u128| elapsed(swept, t) < window;
    let later = |t: u128| elapsed(now, t) < window;
    let times = times_of(hits, ip);
    lemma_filter_filter(times, then, later);
    lemma_filter_shrinks(Seq::<u128>::empty(), later);
    if hits.contains_key(ip) && recent(times, swept, window).len() == 0 {
        assert(recent(times, swept, window) =~= Seq::<u128>::empty());
    }
}

/// The requests of one address do not count for another.
pub proof fn law_addresses_are_counted_apart(
    hits: Map<IpAddr, Seq<u128>>,
    ip: IpAddr,
    other: IpAddr,
    tick: u128,
    now: u128,
    window: u128,
    max: u32,
)
    requires
        ip != other,
    ensures
        lets_in(hits_after(hits, ip, tick, window, max), other, now, window, max) == lets_in(
            hits,
            other,
            now,
            window,
            max,
        ),
{
}

// ---------------------------------------------------------------------------
// Guesses

/// An attempt to unlock a share.
pub struct Attempt {
    pub id: Seq<char>,
    pub ip: IpAddr,
    pub password: Seq<char>,
    pub now: i64,
}

pub open spec fn verdict_on(v: RegistryView, a: Attempt, max: i64, window: i64) -> Verdict {
    verdict(v, a.id, a.ip, a.password, max, window, a.now)
}

/// The registry after a number of attempts.
pub open spec fn after_attempts(
    v: RegistryView,
    attempts: Seq<Attempt>,
    max: i64,
    window: i64,
) -> RegistryView
    decreases attempts.len(),
{
    if attempts.len() == 0 {
        v
    } else {
        let before = after_attempts(v, attempts.drop_last(), max, window);
        let a = attempts.last();
        registry_after_unlock(before, verdict_on(before, a, max, window), a.id, a.ip, a.now)
    }
}

/// How many wrong passwords were tried out on a share from an address.
pub open spec fn wrong_guesses(
    v: RegistryView,
    attempts: Seq<Attempt>,
    id: Seq<char>,
    ip: IpAddr,
    max: i64,
    window: i64,
) -> int
    decreases attempts.len(),
{
    if attempts.len() == 0 {
        0
    } else {
        let before = after_attempts(v, attempts.drop_last(), max, window);
        let a = attempts.last();
        wrong_guesses(v, attempts.drop_last(), id, ip, max, window) + if a.id == id && a.ip == ip
            && verdict_on(before, a, max, window) is Wrong {
            1int
        } else {
            0
        }
    }
}

proof fn lemma_wrong_guesses(
    v: RegistryView,
    attempts: Seq<Attempt>,
    id: Seq<char>,
    ip: IpAddr,
    max: i64,
    window: i64,
    start: i64,
)
    requires
        v.failures.len() + attempts.len() <= i64::MAX,
        forall|i: int|
            0 <= i < attempts.len() ==> start <= (#[trigger] attempts[i]).now <= start + window
                && attempts[i].now - window >= i64::MIN,
    ensures
        after_attempts(v, attempts, max, window).failures.len() <= v.failures.len()
            + attempts.len(),
        wrong_guesses(v, attempts, id, ip, max, window) <= failures_since(
            after_attempts(v, attempts, max, window).failures,
            id,
            ip,
            start,
        ),
        wrong_guesses(v, attempts, id, ip, max, window) <= if max > 0 {
            max as int
        } else {
            0
        },
    decreases attempts.len(),
{
    if attempts.len() > 0 {
        let front = attempts.drop_last();
        assert forall|i: int| 0 <= i < front.len() implies start <= (#[trigger] front[i]).now
            <= start + window && front[i].now - window >= i64::MIN by {
            assert(front[i] == attempts[i]);
        }
        lemma_wrong_guesses(v, front, id, ip, max, window, start);
        let before = after_attempts(v, front, max, window);
        let a = attempts[attempts.len() - 1];
        let from = (a.now - window) as i64;
        let late = |f: FailureView| f.share_id == id && f.ip == ip && f.timestamp >= start;
        let recent = |f: FailureView| f.share_id == id && f.ip == ip && f.timestamp >= from;
        lemma_filter_wider(before.failures, late, recent);
        lemma_filter_push(
            before.failures,
            FailureView { share_id: a.id, ip: a.ip, timestamp: a.now },
            late,
        );
    }
}

/// In any stretch of time as long as the window, no more wrong passwords are tried
/// out on one share from one address than the limit allows, however many guesses
/// are made, and whoever else makes guesses.
pub proof fn law_wrong_guesses_stay_within_the_limit(
    v: RegistryView,
    attempts: Seq<Attempt>,
    id: Seq<char>,
    ip: IpAddr,
    max: i64,
    window: i64,
    start: i64,
)
    requires
        v.failures.len() + attempts.len() <= i64::MAX,
        forall|i: int|
            0 <= i < attempts.len() ==> start <= (#[trigger] attempts[i]).now <= start + window
                && attempts[i].now - window >= i64::MIN,
    ensures
        wrong_guesses(v, attempts, id, ip, max, window) <= if max > 0 {
            max as int
        } else {
            0
        },
{
    lemma_wrong_guesses(v, attempts, id, ip, max, window, start);
}

/// Once too many guesses have failed, the right password is answered as a wrong
/// one is, and nothing changes.
pub proof fn law_limited_guess_learns_nothing(
    v: RegistryView,
    tokens: Map<Seq<char>, TokenView>,
    id: Seq<char>,
    ip: IpAddr,
    password: Seq<char>,
    max: i64,
    window: i64,
    ttl: u64,
    token: Seq<char>,
    now: i64,
    tick: u128,
)
    requires
        servable(v, id, false, now),
        v.shares[id].password_hash is Some,
        failures_since(v.failures, id, ip, (now - window) as i64) >= max,
    ensures
        ({
            let verdict = verdict(v, id, ip, password, max, window, now);
            &&& unlock_answer(v, verdict, token, id, ttl) == Err::<UnlockView, ErrorView>(
                ErrorView::RateLimited,
            )
            &&& registry_after_unlock(v, verdict, id, ip, now) == v
            &&& tokens_after_unlock(tokens, verdict, token, id, ip, ttl, tick) == tokens
        }),
{
}

/// A wrong guess counts at once, and for the share and the address that it was
/// made on and from alone.
pub proof fn law_wrong_guess_counts(
    v: RegistryView,
    id: Seq<char>,
    ip: IpAddr,
    ts: i64,
    of: Seq<char>,
    from: IpAddr,
    since: i64,
)
    ensures
        failures_since(v.with_failure(id, ip, ts).failures, of, from, since) == failures_since(
            v.failures,
            of,
            from,
            since,
        ) + if of == id && from == ip && ts >= since {
            1nat
        } else {
            0
        },
{
    lemma_filter_push(
        v.failures,
        FailureView { share_id: id, ip: ip, timestamp: ts },
        |f: FailureView| f.share_id == of && f.ip == from && f.timestamp >= since,
    );
}

} // verus!
