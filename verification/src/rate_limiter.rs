//! Login rate limiting: after `MAX_ATTEMPTS` failed logins within
//! `WINDOW_MS`, further attempts for the same key are refused until the window
//! that the first failure opened has passed. Times are read from the
//! monotonic clock, in milliseconds since the limiter was made.
use crate::clock::{elapsed_ns, instant_now};
use dashmap::DashMap;
use vstd::prelude::*;

verus! {

pub const MAX_ATTEMPTS: u32 = 5;

/// Five minutes, in milliseconds.
pub const WINDOW_MS: u64 = 300_000;

#[verifier::external_type_specification]
#[verifier::external_body]
#[verifier::reject_recursive_types(K)]
#[verifier::reject_recursive_types(V)]
#[verifier::reject_recursive_types(S)]
pub struct ExDashMap<K, V, S>(DashMap<K, V, S>);

/// Failures per login key: how many, and when (ms) the first one happened.
pub type AttemptMap = DashMap<String, (u32, u64)>;

/// What the concurrent map holds: per key, the number of failures in the current
/// window and the time (ms) of the first one.
pub uninterp spec fn attempt_entries(m: AttemptMap) -> Map<Seq<char>, (u32, u64)>;

/// The map without any entry.
pub open spec fn no_attempts() -> Map<Seq<char>, (u32, u64)> {
    Map::empty()
}

/// `DashMap::new`: an empty map.
#[verifier::external_body]
fn entries_new() -> (r: AttemptMap)
    ensures
        attempt_entries(r) == no_attempts(),
{
    DashMap::new()
}

/// `DashMap::get`, copying the value out: the entry stored for `key`, if any.
#[verifier::external_body]
fn entries_get(m: &AttemptMap, key: &str) -> (r: Option<(u32, u64)>)
    ensures
        match r {
            Some(v) => attempt_entries(*m).dom().contains(key@) && attempt_entries(*m)[key@] == v,
            None => !attempt_entries(*m).dom().contains(key@),
        },
{
    match m.get(key) {
        Some(entry) => Some(*entry.value()),
        None => None,
    }
}

/// `DashMap::insert`: stores `value` for `key`, replacing any earlier value.
#[verifier::external_body]
fn entries_insert(m: &mut AttemptMap, key: String, value: (u32, u64))
    ensures
        attempt_entries(*final(m)) == attempt_entries(*old(m)).insert(key@, value),
{
    m.insert(key, value);
}

/// `DashMap::remove`: drops the entry of `key`, if any.
#[verifier::external_body]
fn entries_remove(m: &mut AttemptMap, key: &str)
    ensures
        attempt_entries(*final(m)) == attempt_entries(*old(m)).remove(key@),
{
    m.remove(key);
}

/// `DashMap::retain` with `still_open` as the predicate: keeps exactly the
/// entries whose window is still open at `now`.
#[verifier::external_body]
fn entries_retain_open(m: &mut AttemptMap, now: u64)
    ensures
        attempt_entries(*final(m)) == open_entries(attempt_entries(*old(m)), now),
{
    m.retain(|_, entry| still_open(*entry, now));
}

/// Time since `first`; a clock that went backwards counts as no time.
pub open spec fn elapsed(first: u64, now: u64) -> u64 {
    if now >= first {
        (now - first) as u64
    } else {
        0
    }
}

pub open spec fn window_open(entry: (u32, u64), now: u64) -> bool {
    elapsed(entry.1, now) < WINDOW_MS
}

pub open spec fn open_entries(m: Map<Seq<char>, (u32, u64)>, now: u64) -> Map<
    Seq<char>,
    (u32, u64),
> {
    Map::new(|k: Seq<char>| m.dom().contains(k) && window_open(m[k], now), |k: Seq<char>| m[k])
}

/// Whether the window opened by the entry's first failure is still open at `now`.
pub fn still_open(entry: (u32, u64), now: u64) -> (r: bool)
    ensures
        r == window_open(entry, now),
{
    let e = if now >= entry.1 {
        now - entry.1
    } else {
        0
    };
    e < WINDOW_MS
}

/// The answer to a login attempt for `key` at `now`: refused with the
/// milliseconds left in the window, or allowed.
pub open spec fn limit_verdict(m: Map<Seq<char>, (u32, u64)>, key: Seq<char>, now: u64) -> Result<
    (),
    u64,
> {
    if m.dom().contains(key) && window_open(m[key], now) && m[key].0 >= MAX_ATTEMPTS {
        Err((WINDOW_MS - elapsed(m[key].1, now)) as u64)
    } else {
        Ok(())
    }
}

/// The entry of `key` after a failure at `now`: a fresh window when there is
/// none or the old one has closed, one more failure otherwise.
pub open spec fn after_failure(m: Map<Seq<char>, (u32, u64)>, key: Seq<char>, now: u64) -> Map<
    Seq<char>,
    (u32, u64),
> {
    if m.dom().contains(key) && window_open(m[key], now) {
        let count = if m[key].0 < u32::MAX {
            (m[key].0 + 1) as u32
        } else {
            u32::MAX
        };
        m.insert(key, (count, m[key].1))
    } else {
        m.insert(key, (1u32, now))
    }
}

pub struct LoginRateLimiter {
    attempts: AttemptMap,
    /// Times are milliseconds of the monotonic clock since this instant.
    origin: std::time::Instant,
}

impl LoginRateLimiter {
    /// The failures recorded so far, per key.
    pub closed spec fn entries(&self) -> Map<Seq<char>, (u32, u64)> {
        attempt_entries(self.attempts)
    }

    pub fn new() -> (r: Self)
        ensures
            r.entries() == no_attempts(),
    {
        LoginRateLimiter { attempts: entries_new(), origin: instant_now() }
    }

    /// Whether a login for `key` may be attempted at time `now`.
    pub fn check_rate_limit_at(&self, key: &str, now: u64) -> (r: Result<(), u64>)
        ensures
            r == limit_verdict(self.entries(), key@, now),
    {
        match entries_get(&self.attempts, key) {
            Some((count, first)) => {
                let e = if now >= first {
                    now - first
                } else {
                    0
                };
                if e < WINDOW_MS && count >= MAX_ATTEMPTS {
                    Err(WINDOW_MS - e)
                } else {
                    Ok(())
                }
            },
            None => Ok(()),
        }
    }

    /// Whether a login for `key` may be attempted now; when refused, the
    /// milliseconds until the window closes.
    pub fn check_rate_limit(&self, key: &str) -> (r: Result<(), u64>)
        ensures
            !(self.entries().dom().contains(key@) && self.entries()[key@].0 >= MAX_ATTEMPTS)
                ==> r is Ok,
            r matches Err(wait) ==> 0 < wait <= WINDOW_MS,
            exists|now: u64| r == limit_verdict(self.entries(), key@, now),
    {
        let now = elapsed_ns(&self.origin) / 1_000_000;
        self.check_rate_limit_at(key, now)
    }

    /// Records a failed login for `key` at time `now`.
    pub fn record_failure_at(&mut self, key: &str, now: u64)
        ensures
            final(self).entries() == after_failure(old(self).entries(), key@, now),
    {
        let next = match entries_get(&self.attempts, key) {
            Some((count, first)) => {
                if still_open((count, first), now) {
                    (count.saturating_add(1), first)
                } else {
                    (1u32, now)
                }
            },
            None => (1u32, now),
        };
        entries_insert(&mut self.attempts, crate::text::owned(key), next);
    }

    /// Records a failed login for `key` now.
    pub fn record_failure(&mut self, key: &str)
        ensures
            exists|now: u64| final(self).entries() == after_failure(old(self).entries(), key@, now),
    {
        let now = elapsed_ns(&self.origin) / 1_000_000;
        self.record_failure_at(key, now);
    }

    /// Forgets the failures of `key` (after a successful login).
    pub fn reset(&mut self, key: &str)
        ensures
            final(self).entries() == old(self).entries().remove(key@),
    {
        entries_remove(&mut self.attempts, key);
    }

    /// Drops the entries whose window has closed at `now`.
    pub fn purge_expired_at(&mut self, now: u64)
        ensures
            final(self).entries() == open_entries(old(self).entries(), now),
    {
        entries_retain_open(&mut self.attempts, now);
    }

    /// Drops the entries whose window has closed (what the periodic cleanup does).
    pub fn purge_expired(&mut self)
        ensures
            exists|now: u64| final(self).entries() == open_entries(old(self).entries(), now),
    {
        let now = elapsed_ns(&self.origin) / 1_000_000;
        self.purge_expired_at(now);
    }
}


// ---------------------------------------------------------------------------
// Laws
// ---------------------------------------------------------------------------
/// The entries after `n` failed logins of `key`, all at time `now`.
pub open spec fn failures(m: Map<Seq<char>, (u32, u64)>, key: Seq<char>, now: u64, n: nat) -> Map<
    Seq<char>,
    (u32, u64),
>
    decreases n,
{
    if n == 0 {
        m
    } else {
        after_failure(failures(m, key, now, (n - 1) as nat), key, now)
    }
}

proof fn lemma_failures_counted(m: Map<Seq<char>, (u32, u64)>, key: Seq<char>, now: u64, n: nat)
    requires
        n >= 1,
    ensures
        failures(m, key, now, n).dom().contains(key),
        window_open(failures(m, key, now, n)[key], now),
        failures(m, key, now, n)[key].0 >= if n < u32::MAX { n } else { u32::MAX as nat },
    decreases n,
{
    if n > 1 {
        lemma_failures_counted(m, key, now, (n - 1) as nat);
    }
}

/// Whatever was recorded before, `MAX_ATTEMPTS` failed logins of a key in a
/// row lock that key out at that moment.
pub proof fn law_lockout_after_max_failures(
    m: Map<Seq<char>, (u32, u64)>,
    key: Seq<char>,
    now: u64,
    n: nat,
)
    requires
        n >= MAX_ATTEMPTS,
    ensures
        limit_verdict(failures(m, key, now, n), key, now) is Err,
{
    lemma_failures_counted(m, key, now, n);
}

/// Fewer than `MAX_ATTEMPTS` failures of a key without earlier record leave it
/// free to try again.
pub proof fn law_below_limit_is_allowed(
    m: Map<Seq<char>, (u32, u64)>,
    key: Seq<char>,
    now: u64,
    n: nat,
)
    requires
        n < MAX_ATTEMPTS,
        !m.dom().contains(key),
    ensures
        limit_verdict(failures(m, key, now, n), key, now) == Ok::<(), u64>(()),
{
    if n > 0 {
        lemma_failures_at_most(m, key, now, n);
    }
}

proof fn lemma_failures_at_most(m: Map<Seq<char>, (u32, u64)>, key: Seq<char>, now: u64, n: nat)
    requires
        !m.dom().contains(key),
        n >= 1,
    ensures
        failures(m, key, now, n).dom().contains(key),
        failures(m, key, now, n)[key].0 <= n,
    decreases n,
{
    if n > 1 {
        lemma_failures_at_most(m, key, now, (n - 1) as nat);
    } else {
        assert(failures(m, key, now, 0) == m);
    }
}

/// A reset forgets the key's failures: the next attempt is allowed, and other
/// keys keep their state.
pub proof fn law_reset_clears(m: Map<Seq<char>, (u32, u64)>, key: Seq<char>, other: Seq<char>, now: u64)
    requires
        other != key,
    ensures
        limit_verdict(m.remove(key), key, now) == Ok::<(), u64>(()),
        limit_verdict(m.remove(key), other, now) == limit_verdict(m, other, now),
{
}

/// A failure of one key changes nothing for another key.
pub proof fn law_keys_are_independent(
    m: Map<Seq<char>, (u32, u64)>,
    key: Seq<char>,
    other: Seq<char>,
    now: u64,
    later: u64,
)
    requires
        other != key,
    ensures
        limit_verdict(after_failure(m, key, now), other, later) == limit_verdict(m, other, later),
{
}

/// A refusal names a wait within the window, and once the window opened by the
/// first failure has passed, the key is allowed again.
pub proof fn law_window_expires(m: Map<Seq<char>, (u32, u64)>, key: Seq<char>, now: u64)
    ensures
        limit_verdict(m, key, now) matches Err(wait) ==> 0 < wait <= WINDOW_MS,
        m.dom().contains(key) && now >= m[key].1 + WINDOW_MS ==> limit_verdict(m, key, now)
            == Ok::<(), u64>(()),
{
}

/// Purging keeps exactly the entries whose window is still open, so it never
/// changes the answer to an attempt at the same time.
pub proof fn law_purge_preserves_verdicts(m: Map<Seq<char>, (u32, u64)>, key: Seq<char>, now: u64)
    ensures
        limit_verdict(open_entries(m, now), key, now) == limit_verdict(m, key, now),
{
}

} // verus!
