use std::collections::HashMap;
use vstd::prelude::*;

verus! {

broadcast use vstd::std_specs::hash::group_hash_axioms;

/// Relies on tokio's `Instant`: a point on the monotonic clock.
#[verifier::external_type_specification]
#[verifier::external_body]
pub struct ExInstant(tokio::time::Instant);

/// Relies on `tokio::time::Instant::now`: the current instant. Nothing is promised of it.
#[verifier::external_body]
fn instant_now() -> (r: tokio::time::Instant) {
    tokio::time::Instant::now()
}

/// Relies on `tokio::time::Instant::elapsed`: whole milliseconds since `origin`, saturated
/// to `u64`. It depends on the clock, so nothing is promised of it.
#[verifier::external_body]
fn millis_since(origin: &tokio::time::Instant) -> (r: u64) {
    u64::try_from(origin.elapsed().as_millis()).unwrap_or(u64::MAX)
}

/// The answer to one request.
pub struct RateLimitResult {
    pub allowed: bool,
    /// Milliseconds until the next request would be allowed; only on a denial.
    pub retry_after_ms: Option<u64>,
}

pub ghost struct Verdict {
    pub allowed: bool,
    pub retry_after_ms: Option<u64>,
}

impl View for RateLimitResult {
    type V = Verdict;

    open spec fn view(&self) -> Verdict {
        Verdict { allowed: self.allowed, retry_after_ms: self.retry_after_ms }
    }
}

/// Milliseconds from `last` to `now`; none where the clock reads earlier than `last`.
pub open spec fn elapsed(last: u64, now: u64) -> int {
    if now >= last {
        now - last
    } else {
        0
    }
}

/// One check of `chat_id` at time `now` (milliseconds), given the time of each tenant's last
/// allowed request: the first request of a tenant is allowed, a later one only once
/// `cooldown` has elapsed since the last allowed one. An allowed request stamps `now`.
pub open spec fn rate_step(last: Map<i64, u64>, chat_id: i64, cooldown: u64, now: u64) -> (
    Map<i64, u64>,
    Verdict,
) {
    if !last.contains_key(chat_id) || elapsed(last[chat_id], now) >= cooldown {
        (last.insert(chat_id, now), Verdict { allowed: true, retry_after_ms: None })
    } else {
        (
            last,
            Verdict {
                allowed: false,
                retry_after_ms: Some((cooldown - elapsed(last[chat_id], now)) as u64),
            },
        )
    }
}

/// Per-tenant cooldown between requests, held in memory.
pub struct RateLimiter {
    entries: HashMap<i64, u64>,
    origin: tokio::time::Instant,
}

impl View for RateLimiter {
    /// For each tenant, the clock reading of its last allowed request.
    type V = Map<i64, u64>;

    closed spec fn view(&self) -> Map<i64, u64> {
        self.entries@
    }
}

impl RateLimiter {
    pub fn new() -> (r: Self)
        ensures
            r@ == Map::<i64, u64>::empty(),
    {
        RateLimiter { entries: HashMap::new(), origin: instant_now() }
    }

    /// Checks a request of `chat_id` made at clock reading `now_ms`.
    pub fn check_at(&mut self, chat_id: i64, cooldown_ms: u64, now_ms: u64) -> (r: RateLimitResult)
        ensures
            (final(self)@, r@) == rate_step(old(self)@, chat_id, cooldown_ms, now_ms),
    {
        match self.entries.get(&chat_id) {
            Some(last) => {
                let last = *last;
                let elapsed_ms = if now_ms >= last {
                    now_ms - last
                } else {
                    0
                };
                if elapsed_ms >= cooldown_ms {
                    self.entries.insert(chat_id, now_ms);
                    RateLimitResult { allowed: true, retry_after_ms: None }
                } else {
                    RateLimitResult { allowed: false, retry_after_ms: Some(cooldown_ms - elapsed_ms) }
                }
            },
            None => {
                self.entries.insert(chat_id, now_ms);
                RateLimitResult { allowed: true, retry_after_ms: None }
            },
        }
    }

    /// Checks a request of `chat_id` made now.
    pub fn check(&mut self, chat_id: i64, cooldown_ms: u64) -> (r: RateLimitResult)
        ensures
            exists|now: u64| #[trigger]
                rate_step(old(self)@, chat_id, cooldown_ms, now) == (final(self)@, r@),
            !old(self)@.contains_key(chat_id) ==> r.allowed,
    {
        let now = millis_since(&self.origin);
        let r = self.check_at(chat_id, cooldown_ms, now);
        assert(rate_step(old(self)@, chat_id, cooldown_ms, now) == (self@, r@));
        r
    }
}

/// The cooldown law: a tenant's first request is allowed; a second one before `cooldown`
/// has elapsed is denied, and told to wait more than nothing and at most `cooldown`; one
/// made once `cooldown` has elapsed is allowed.
pub proof fn lemma_cooldown(last: Map<i64, u64>, chat_id: i64, cooldown: u64, t0: u64, t1: u64)
    requires
        !last.contains_key(chat_id),
        t0 <= t1,
    ensures
        rate_step(last, chat_id, cooldown, t0).1.allowed,
        ({
            let after = rate_step(rate_step(last, chat_id, cooldown, t0).0, chat_id, cooldown, t1).1;
            &&& t1 - t0 < cooldown ==> {
                &&& !after.allowed
                &&& after.retry_after_ms matches Some(w) && 0 < w <= cooldown
            }
            &&& t1 - t0 >= cooldown ==> after.allowed
        }),
{
}

/// Tenants do not affect each other: a check of one leaves the other's stamp as it was.
pub proof fn lemma_tenants_independent(
    last: Map<i64, u64>,
    chat_id: i64,
    other: i64,
    cooldown: u64,
    now: u64,
)
    requires
        chat_id != other,
    ensures
        rate_step(last, chat_id, cooldown, now).0.contains_key(other) == last.contains_key(other),
        last.contains_key(other) ==> rate_step(last, chat_id, cooldown, now).0[other]
            == last[other],
{
}

} // verus!
