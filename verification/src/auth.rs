//! Password hashing for protected shares, and request limiting in memory. No
//! password is kept or logged here.

use crate::error::{AppError, ErrorView};
use crate::ids::random_bytes;
use crate::net::IpAddr;
use crate::table::{place_of, Table};
use crate::text::{all_digits, chars_of, has_prefix, is_digit, matches_at, stands_at};
use argon2::password_hash::{PasswordHash, PasswordHasher, PasswordVerifier, SaltString};
use argon2::Argon2;
use vstd::prelude::*;
use vstd::utf8::encode_utf8;

verus! {

// ---------------------------------------------------------------------------
// Passwords

/// The error type of the password hashing crate.
#[verifier::external_type_specification]
#[verifier::external_body]
pub struct ExPasswordHashError(argon2::password_hash::Error);

/// The text that Argon2id with its default parameters makes of a password and a
/// salt: parameters, salt and hash in the PHC string format.
pub uninterp spec fn argon2_text(plain: Seq<char>, salt: Seq<u8>) -> Seq<char>;

/// Whether Argon2 accepts a password for a text in the PHC string format.
pub uninterp spec fn argon2_accepts(plain: Seq<char>, hash: Seq<char>) -> bool;

/// The longest password that Argon2 takes, in bytes.
pub const MAX_PASSWORD_BYTES: u64 = 0xffff_ffff;

/// The number of bytes of a salt.
pub const SALT_BYTES: usize = 16;

/// What every text begins with that is made here: Argon2id with 19 MiB of memory,
/// two passes and one lane.
pub const ARGON2ID_PREFIX: &'static str = "$argon2id$v=19$m=19456,t=2,p=1$";

/// A text that asks for more lanes than Argon2 can count: behind the last `p=`,
/// the one that holds, stand nine digits or more.
pub open spec fn too_many_lanes(hash: Seq<char>) -> bool {
    exists|at: int|
        #![trigger stands_at(hash, "p="@, at)]
        stands_at(hash, "p="@, at) && at + 11 <= hash.len() && all_digits(
            hash.subrange(at + 2, at + 11),
        ) && forall|later: int| at < later ==> !#[trigger] stands_at(hash, "p="@, later)
}

/// `Argon2::default().hash_password`, on a salt given by its bytes. With a salt
/// of a length that Argon2 takes, it fails on a password of more than `2^32 - 1`
/// bytes and on no other. What it makes depends on the password and the salt
/// alone. It is a text for which `verify_password` accepts this password; it
/// begins with the default parameters of Argon2id, which is one lane; and the salt
/// stands in it, so that another salt makes another text.
#[verifier::external_body]
fn argon2_hash(plain: &str, salt: &[u8]) -> (r: Result<String, argon2::password_hash::Error>)
    requires
        8 <= salt@.len() <= 48,
    ensures
        r is Ok <==> encode_utf8(plain@).len() <= MAX_PASSWORD_BYTES,
        r matches Ok(h) ==> h@ == argon2_text(plain@, salt@) && argon2_accepts(plain@, h@),
        r matches Ok(h) ==> has_prefix(h@, ARGON2ID_PREFIX@) && !too_many_lanes(h@),
        r matches Ok(h) ==> forall|other: Seq<u8>|
            8 <= other.len() <= 48 && #[trigger] argon2_text(plain@, other) == h@ ==> other == salt@,
{
    let salt = SaltString::encode_b64(salt)?;
    Argon2::default().hash_password(plain.as_bytes(), &salt).map(|hash| hash.to_string())
}

/// `Argon2::default().verify_password`, on a hash given as a text; a text that
/// `PasswordHash::new` cannot read is accepted with no password. Whether it
/// accepts depends on the two texts alone. On a text with too many lanes, eight
/// times their number overflows before they are refused: such a text is left out.
/// The text says how much memory and time the check takes. That no other password
/// is accepted for a text is beyond what can be promised of a hash, and is not
/// claimed.
#[verifier::external_body]
fn argon2_verify(plain: &str, hash: &str) -> (r: Result<(), argon2::password_hash::Error>)
    requires
        !too_many_lanes(hash@),
    ensures
        r is Ok <==> argon2_accepts(plain@, hash@),
{
    let parsed = PasswordHash::new(hash)?;
    Argon2::default().verify_password(plain.as_bytes(), &parsed)
}

/// Whether a password is accepted for a text. For one with too many lanes, which
/// Argon2 does not know, none is.
pub open spec fn accepts(plain: Seq<char>, hash: Seq<char>) -> bool {
    !too_many_lanes(hash) && argon2_accepts(plain, hash)
}

/// What Argon2id makes of a password with this salt: a text that begins with its
/// parameters, that the password is accepted for, and that no other salt makes.
pub open spec fn is_hash_with(plain: Seq<char>, salt: Seq<u8>, hash: Seq<char>) -> bool {
    &&& hash == argon2_text(plain, salt)
    &&& accepts(plain, hash)
    &&& has_prefix(hash, ARGON2ID_PREFIX@)
    &&& forall|other: Seq<u8>|
        8 <= other.len() <= 48 && #[trigger] argon2_text(plain, other) == hash ==> other == salt
}

/// What is kept of a password, given the salt.
pub fn hash_password_with_salt(plain: &str, salt: &[u8]) -> (r: Result<String, AppError>)
    requires
        8 <= salt@.len() <= 48,
    ensures
        match r {
            Ok(h) => encode_utf8(plain@).len() <= MAX_PASSWORD_BYTES && is_hash_with(
                plain@,
                salt@,
                h@,
            ),
            Err(e) => encode_utf8(plain@).len() > MAX_PASSWORD_BYTES && e@ == ErrorView::Internal(
                "password hashing failed"@,
            ),
        },
{
    match argon2_hash(plain, salt) {
        Ok(hash) => Ok(hash),
        Err(_) => Err(AppError::Internal("password hashing failed".to_string())),
    }
}

/// A text that may be kept of a password: what Argon2id makes of it with some salt.
pub open spec fn is_hash_of(plain: Seq<char>, hash: Seq<char>) -> bool {
    exists|salt: Seq<u8>| salt.len() == SALT_BYTES && #[trigger] is_hash_with(plain, salt, hash)
}

/// What is kept of a password, with a fresh salt: a text that the password is
/// accepted for.
pub fn hash_password(plain: &str) -> (r: Result<String, AppError>)
    ensures
        match r {
            Ok(h) => encode_utf8(plain@).len() <= MAX_PASSWORD_BYTES && is_hash_of(plain@, h@),
            Err(e) => encode_utf8(plain@).len() > MAX_PASSWORD_BYTES && e@ == ErrorView::Internal(
                "password hashing failed"@,
            ),
        },
{
    let salt = random_bytes(SALT_BYTES);
    hash_password_with_salt(plain, salt.as_slice())
}

/// What is kept of a password is an Argon2id text that the password is accepted
/// for, and the same password with another salt leaves another text.
pub proof fn law_salts_keep_texts_apart(
    plain: Seq<char>,
    salt: Seq<u8>,
    hash: Seq<char>,
    other_salt: Seq<u8>,
    other_hash: Seq<char>,
)
    requires
        8 <= salt.len() <= 48,
        8 <= other_salt.len() <= 48,
        is_hash_with(plain, salt, hash),
        is_hash_with(plain, other_salt, other_hash),
    ensures
        has_prefix(hash, "$argon2id$"@),
        has_prefix(other_hash, "$argon2id$"@),
        accepts(plain, hash),
        accepts(plain, other_hash),
        salt != other_salt ==> hash != other_hash,
{
    reveal_strlit("$argon2id$");
    reveal_strlit("$argon2id$v=19$m=19456,t=2,p=1$");
    let n = ARGON2ID_PREFIX@.len() as int;
    assert(hash.take(n) == ARGON2ID_PREFIX@ && other_hash.take(n) == ARGON2ID_PREFIX@);
    assert(ARGON2ID_PREFIX@.take(10) =~= "$argon2id$"@);
    assert(hash.take(n).take(10) =~= hash.take(10));
    assert(other_hash.take(n).take(10) =~= other_hash.take(10));
}

fn asks_too_many_lanes(hash: &str) -> (r: bool)
    ensures
        r == too_many_lanes(hash@),
{
    proof {
        reveal_strlit("p=");
    }
    let chars = chars_of(hash);
    let name = chars_of("p=");
    let n: usize = chars.len();
    let mut at: usize = n;
    while at > 0
        invariant
            at <= n,
            n == chars@.len(),
            chars@ == hash@,
            name@ == "p="@,
            name@.len() == 2,
            forall|later: int| at <= later ==> !#[trigger] stands_at(hash@, "p="@, later),
        decreases at,
    {
        at = at - 1;
        if matches_at(chars.as_slice(), name.as_slice(), at) {
            let start: usize = at + 2;
            if n - start < 9 {
                return false;
            }
            for i in start..start + 9
                invariant
                    start == at + 2,
                    start + 9 <= n,
                    n == chars@.len(),
                    chars@ == hash@,
                    stands_at(hash@, "p="@, at as int),
                    forall|later: int| at < later ==> !#[trigger] stands_at(hash@, "p="@, later),
                    forall|j: int| start <= j < i ==> is_digit(#[trigger] hash@[j]),
            {
                let c = chars[i];
                if !(c >= '0' && c <= '9') {
                    assert(hash@.subrange(at + 2, at + 11)[i - start] == hash@[i as int]);
                    return false;
                }
            }
            assert(all_digits(hash@.subrange(at + 2, at + 11)));
            return true;
        }
    }
    assert forall|at: int| !#[trigger] stands_at(hash@, "p="@, at) by {}
    false
}

/// Whether a password is the one that the hash was made from.
pub fn verify_password(plain: &str, hash: &str) -> (r: bool)
    ensures
        r == accepts(plain@, hash@),
{
    !asks_too_many_lanes(hash) && argon2_verify(plain, hash).is_ok()
}

// ---------------------------------------------------------------------------
// Request limiting

/// A limit on the requests from one address in a sliding window of time. Times
/// are nanoseconds on a clock that does not go back.
pub struct RateLimiter {
    window: u128,
    max_requests: u32,
    hits: Table<IpAddr, Vec<u128>>,
}

/// How long ago `then` was at `now`; nothing, where it is yet to come.
pub open spec fn elapsed(now: u128, then: u128) -> int {
    if now >= then {
        now - then
    } else {
        0
    }
}

/// The times that still count at `now`, in their order.
pub open spec fn recent(times: Seq<u128>, now: u128, window: u128) -> Seq<u128> {
    times.filter(|t: u128| elapsed(now, t) < window)
}

/// The times that are recorded for an address.
pub open spec fn times_of(hits: Map<IpAddr, Seq<u128>>, ip: IpAddr) -> Seq<u128> {
    if hits.contains_key(ip) {
        hits[ip]
    } else {
        Seq::empty()
    }
}

/// Whether one more request from an address is let in.
pub open spec fn lets_in(
    hits: Map<IpAddr, Seq<u128>>,
    ip: IpAddr,
    now: u128,
    window: u128,
    max_requests: u32,
) -> bool {
    recent(times_of(hits, ip), now, window).len() < max_requests
}

/// What is recorded after a request.
pub open spec fn hits_after(
    hits: Map<IpAddr, Seq<u128>>,
    ip: IpAddr,
    now: u128,
    window: u128,
    max_requests: u32,
) -> Map<IpAddr, Seq<u128>> {
    let kept = recent(times_of(hits, ip), now, window);
    hits.insert(
        ip,
        if lets_in(hits, ip, now, window, max_requests) {
            kept.push(now)
        } else {
            kept
        },
    )
}

/// What is left after the times that no longer count were dropped, and with them
/// the addresses that have none left.
pub open spec fn hits_swept(hits: Map<IpAddr, Seq<u128>>, now: u128, window: u128) -> Map<
    IpAddr,
    Seq<u128>,
> {
    Map::new(
        |ip: IpAddr| hits.contains_key(ip) && recent(hits[ip], now, window).len() > 0,
        |ip: IpAddr| recent(hits[ip], now, window),
    )
}

/// The times that still count, out of a list.
fn recent_times(times: &Vec<u128>, now: u128, window: u128) -> (r: Vec<u128>)
    ensures
        r@ == recent(times@, now, window),
        r@.len() <= times@.len(),
{
    let n: usize = times.len();
    let mut out: Vec<u128> = Vec::new();
    let ghost fresh = |t: u128| elapsed(now, t) < window;
    assert(times@.take(0) =~= Seq::<u128>::empty());
    for i in 0..n
        invariant
            n == times@.len(),
            fresh == (|t: u128| elapsed(now, t) < window),
            out@ == times@.take(i as int).filter(fresh),
            out@.len() <= i,
    {
        reveal_with_fuel(Seq::filter, 2);
        assert(times@.take(i + 1).drop_last() =~= times@.take(i as int));
        let t: u128 = times[i];
        let age: u128 = if now >= t {
            now - t
        } else {
            0
        };
        if age < window {
            out.push(t);
        }
    }
    assert(times@.take(n as int) =~= times@);
    out
}

impl RateLimiter {
    pub closed spec fn window(&self) -> u128 {
        self.window
    }

    pub closed spec fn max_requests(&self) -> u32 {
        self.max_requests
    }

    /// The times that are recorded, by address.
    pub closed spec fn hits(&self) -> Map<IpAddr, Seq<u128>> {
        self.hits@
    }

    /// No address has more times recorded than requests are allowed.
    pub closed spec fn wf(&self) -> bool {
        self.hits.wf() && forall|ip: IpAddr| #[trigger]
            self.hits@.contains_key(ip) ==> self.hits@[ip].len() <= self.max_requests
    }

    /// No address has more times recorded than requests are allowed: the record of an
    /// address cannot be made to grow.
    pub proof fn law_record_is_bounded(&self)
        requires
            self.wf(),
        ensures
            forall|ip: IpAddr| #[trigger]
                self.hits().contains_key(ip) ==> self.hits()[ip].len() <= self.max_requests(),
    {
    }

    /// A limit of `max_requests` in any stretch of `window` nanoseconds.
    pub fn new(max_requests: u32, window: u128) -> (r: Self)
        ensures
            r.wf(),
            r.max_requests() == max_requests,
            r.window() == window,
            r.hits() == Map::<IpAddr, Seq<u128>>::empty(),
    {
        RateLimiter { window, max_requests, hits: Table::new() }
    }

    /// Whether a request at `now` is let in; it is recorded if so.
    pub fn check(&mut self, ip: IpAddr, now: u128) -> (r: bool)
        requires
            old(self).wf(),
        ensures
            final(self).wf(),
            final(self).max_requests() == old(self).max_requests(),
            final(self).window() == old(self).window(),
            r == lets_in(old(self).hits(), ip, now, old(self).window(), old(self).max_requests()),
            final(self).hits() == hits_after(
                old(self).hits(),
                ip,
                now,
                old(self).window(),
                old(self).max_requests(),
            ),
    {
        let ghost past = times_of(self.hits@, ip);
        let mut times: Vec<u128> = match self.hits.get(&ip) {
            Some(times) => recent_times(times, now, self.window),
            None => {
                reveal(Seq::filter);
                Vec::new()
            },
        };
        assert(times@ == recent(past, now, self.window));
        assert(times@.len() <= self.max_requests);
        let allowed = (times.len() as u64) < (self.max_requests as u64);
        if allowed {
            times.push(now);
        }
        self.hits.insert(ip, times);
        allowed
    }

    /// Drops what no longer counts, so that the record does not grow with every
    /// address that was ever seen.
    pub fn sweep(&mut self, now: u128)
        requires
            old(self).wf(),
        ensures
            final(self).wf(),
            final(self).max_requests() == old(self).max_requests(),
            final(self).window() == old(self).window(),
            final(self).hits() == hits_swept(old(self).hits(), now, old(self).window()),
    {
        let n: usize = self.hits.len();
        let mut left: Table<IpAddr, Vec<u128>> = Table::new();
        let ghost pairs = self.hits.pairs();
        proof {
            self.hits.lemma_rows();
        }
        for i in 0..n
            invariant
                self.wf(),
                pairs == self.hits.pairs(),
                n == pairs.len(),
                left.wf(),
                forall|ip: IpAddr| #[trigger]
                    left@.contains_key(ip) ==> exists|j: int|
                        0 <= j < i && (#[trigger] pairs[j]).0 == ip && left@[ip] == recent(
                            pairs[j].1,
                            now,
                            self.window,
                        ) && left@[ip].len() > 0,
                forall|j: int|
                    0 <= j < i && recent((#[trigger] pairs[j]).1, now, self.window).len() > 0
                        ==> left@.contains_key(pairs[j].0),
        {
            let times = recent_times(self.hits.row_at(i), now, self.window);
            let ghost before = left@;
            proof {
                self.hits.lemma_rows();
                if before.contains_key(pairs[i as int].0) {
                    let j = choose|j: int|
                        0 <= j < i && (#[trigger] pairs[j]).0 == pairs[i as int].0;
                    assert(pairs[j].0 != pairs[i as int].0);
                }
            }
            if times.len() > 0 {
                let key = *self.hits.key_at(i);
                left.push(key, times);
                proof {
                    assert forall|ip: IpAddr| #[trigger] left@.contains_key(ip) implies exists|
                        j: int,
                    |
                        0 <= j < i + 1 && (#[trigger] pairs[j]).0 == ip && left@[ip] == recent(
                            pairs[j].1,
                            now,
                            self.window,
                        ) && left@[ip].len() > 0 by {
                        if ip == key {
                            assert(pairs[i as int].0 == ip);
                        } else {
                            assert(before.contains_key(ip));
                            let j = choose|j: int|
                                0 <= j < i && (#[trigger] pairs[j]).0 == ip && before[ip]
                                    == recent(pairs[j].1, now, self.window);
                            assert(pairs[j].0 == ip);
                        }
                    }
                }
            }
        }
        proof {
            self.hits.lemma_rows();
            let swept = hits_swept(self.hits@, now, self.window);
            assert forall|ip: IpAddr| left@.contains_key(ip) <==> swept.contains_key(ip) by {
                if left@.contains_key(ip) {
                    let j = choose|j: int|
                        0 <= j < n && (#[trigger] pairs[j]).0 == ip && left@[ip] == recent(
                            pairs[j].1,
                            now,
                            self.window,
                        );
                    assert(pairs[j].0 == ip);
                    assert(self.hits@[ip] == pairs[j].1);
                }
                if swept.contains_key(ip) {
                    let j = place_of(pairs, ip);
                    assert(pairs[j].0 == ip);
                    assert(recent(pairs[j].1, now, self.window).len() > 0);
                }
            }
            assert forall|ip: IpAddr| left@.contains_key(ip) implies left@[ip] == swept[ip]
                && left@[ip].len() <= self.max_requests by {
                let j = choose|j: int|
                    0 <= j < n && (#[trigger] pairs[j]).0 == ip && left@[ip] == recent(
                        pairs[j].1,
                        now,
                        self.window,
                    );
                assert(pairs[j].0 == ip);
                assert(self.hits@.contains_key(ip));
                assert(self.hits@[ip] == pairs[j].1);
                self.hits@[ip].lemma_filter_len(|t: u128| elapsed(now, t) < self.window);
            }
            assert(left@ =~= swept);
        }
        self.hits = left;
    }
}

} // verus!
