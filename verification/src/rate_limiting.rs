//! Rate limiting with a sliding window of request times, per client.
//!
//! A [`SlidingWindowRateLimiter`] keeps the arrival times of the requests it
//! let through; a request is let through while fewer than `max_requests` of
//! them fall inside the window that ends at its arrival.  The middleware keeps
//! one such limiter per client.
use vstd::prelude::*;
use crate::mcp::{McpError, McpErrorCode};
use crate::store::StrMap;
use crate::text::{decimal_text, opt_text, u64_to_decimal, usize_to_decimal};
use crate::time::{Duration, Instant};

verus! {

/// Error code for rate limit exceeded (-32005), in the MCP server error range
/// (-32000 to -32099).
pub const RATE_LIMIT_ERROR_CODE: i32 = -32005;

/// A rate-limit-exceeded error with the given message.
pub fn rate_limit_error(message: String) -> (e: McpError)
    ensures
        e.code == McpErrorCode::Custom(RATE_LIMIT_ERROR_CODE),
        e.message@ == message@,
{
    McpError::new(McpErrorCode::Custom(RATE_LIMIT_ERROR_CODE), message)
}

/// What a middleware decides about a request it lets through.
#[derive(Debug, Clone, Copy, PartialEq, Eq, Structural)]
pub enum MiddlewareDecision {
    /// Hand the request on.
    Continue,
}

/// The earliest arrival time, in nanoseconds, that still lies in a window of
/// `window_secs` seconds ending at `now` (zero where the window reaches back
/// past the epoch).
pub open spec fn window_start(now: nat, window_secs: nat) -> nat {
    let w = window_secs * 1_000_000_000;
    if now >= w { (now - w) as nat } else { 0 }
}

/// `times` without its leading entries that arrived before `cutoff`.
pub open spec fn drop_older(times: Seq<nat>, cutoff: nat) -> Seq<nat>
    decreases times.len(),
{
    if times.len() > 0 && times[0] < cutoff {
        drop_older(times.drop_first(), cutoff)
    } else {
        times
    }
}

/// The arrival times in nanoseconds.
pub open spec fn arrival_times(v: Seq<Instant>) -> Seq<nat> {
    v.map_values(|t: Instant| t@)
}

/// Sliding window rate limiter: the arrival times of the requests it let
/// through, oldest first.
#[derive(Debug)]
pub struct SlidingWindowRateLimiter {
    max_requests: usize,
    window_seconds: u64,
    requests: Vec<Instant>,
}

impl SlidingWindowRateLimiter {
    #[verifier::type_invariant]
    spec fn within_limit(self) -> bool {
        self.requests@.len() <= self.max_requests
    }

    /// The largest number of requests in one window.
    pub closed spec fn max(&self) -> nat {
        self.max_requests as nat
    }

    /// The window length in seconds.
    pub closed spec fn window(&self) -> nat {
        self.window_seconds as nat
    }

    /// The arrival times of the requests counted, oldest first.
    pub closed spec fn times(&self) -> Seq<nat> {
        arrival_times(self.requests@)
    }

    /// Creates a limiter that lets through `max_requests` requests per
    /// `window_seconds` seconds.
    pub fn new(max_requests: usize, window_seconds: u64) -> (l: Self)
        ensures
            l.max() == max_requests,
            l.window() == window_seconds,
            l.times() == Seq::<nat>::empty(),
    {
        let l = SlidingWindowRateLimiter { max_requests, window_seconds, requests: Vec::new() };
        assert(l.times() =~= Seq::<nat>::empty());
        l
    }

    /// The requests of `v` from the first that arrived at or after `cutoff`.
    fn kept_after(v: &Vec<Instant>, cutoff: Instant) -> (kept: Vec<Instant>)
        ensures
            arrival_times(kept@) == drop_older(arrival_times(v@), cutoff@),
            kept@.len() <= v@.len(),
    {
        let ghost all = arrival_times(v@);
        let mut i: usize = 0;
        assert(all.subrange(0, all.len() as int) =~= all);
        while i < v.len() && v[i].is_before(&cutoff)
            invariant
                all == arrival_times(v@),
                i <= v@.len(),
                drop_older(all, cutoff@) == drop_older(all.subrange(i as int, all.len() as int), cutoff@),
            decreases v@.len() - i,
        {
            let ghost rest = all.subrange(i as int, all.len() as int);
            assert(rest.drop_first() =~= all.subrange(i + 1, all.len() as int));
            i += 1;
        }
        assert(drop_older(all.subrange(i as int, all.len() as int), cutoff@) == all.subrange(
            i as int,
            all.len() as int,
        ));
        let mut kept: Vec<Instant> = Vec::new();
        let start = i;
        while i < v.len()
            invariant
                start <= i <= v@.len(),
                kept@ =~= v@.subrange(start as int, i as int),
            decreases v@.len() - i,
        {
            kept.push(v[i]);
            i += 1;
        }
        proof {
            assert(arrival_times(kept@) =~= all.subrange(start as int, all.len() as int));
        }
        kept
    }

    /// Checks at time `now` whether a request is allowed.
    ///
    /// Requests that arrived before the window ending at `now` are forgotten;
    /// then, where fewer than `max_requests` remain, the request is recorded
    /// and allowed.  A denied request is not recorded.
    pub fn is_allowed_at(&mut self, now: Instant) -> (allowed: bool)
        ensures
            ({
                let kept = drop_older(old(self).times(), window_start(now@, old(self).window()));
                &&& allowed == (kept.len() < old(self).max())
                &&& final(self).times() == if allowed { kept.push(now@) } else { kept }
                &&& final(self).max() == old(self).max()
                &&& final(self).window() == old(self).window()
            }),
            final(self).times().len() <= final(self).max(),
            (final(self).times(), allowed) == sliding_step(old(self).times(), old(self).max(), old(self).window(), now@),
    {
        proof {
            use_type_invariant(&*self);
        }
        let cutoff = self.cutoff_at(now);
        let mut kept = Self::kept_after(&self.requests, cutoff);
        let allowed = kept.len() < self.max_requests;
        if allowed {
            let ghost before = kept@;
            kept.push(now);
            assert(arrival_times(kept@) =~= arrival_times(before).push(now@));
        }
        self.requests = kept;
        allowed
    }

    /// The start of the window that ends at `now`.
    fn cutoff_at(&self, now: Instant) -> (c: Instant)
        ensures
            c@ == window_start(now@, self.window()),
    {
        let w = Duration::from_secs(self.window_seconds);
        match now.checked_sub(w) {
            Some(c) => c,
            None => Instant::from_nanos_since_epoch(0),
        }
    }

    /// The number of requests in the window ending at `now`; older ones are
    /// forgotten.
    pub fn current_requests_at(&mut self, now: Instant) -> (n: usize)
        ensures
            ({
                let kept = drop_older(old(self).times(), window_start(now@, old(self).window()));
                &&& n == kept.len()
                &&& final(self).times() == kept
                &&& final(self).max() == old(self).max()
                &&& final(self).window() == old(self).window()
            }),
    {
        proof {
            use_type_invariant(&*self);
        }
        let cutoff = self.cutoff_at(now);
        let kept = Self::kept_after(&self.requests, cutoff);
        self.requests = kept;
        self.requests.len()
    }

    /// Checks by the clock whether a request is allowed; see
    /// [`Self::is_allowed_at`].
    pub fn is_allowed(&mut self) -> (allowed: bool)
        ensures
            exists|now: nat| {
                let kept = drop_older(old(self).times(), #[trigger] window_start(now, old(self).window()));
                &&& allowed == (kept.len() < old(self).max())
                &&& final(self).times() == if allowed { kept.push(now) } else { kept }
            },
            final(self).max() == old(self).max(),
            final(self).window() == old(self).window(),
    {
        let now = Instant::now();
        self.is_allowed_at(now)
    }

    /// The number of requests in the current window, by the clock; see
    /// [`Self::current_requests_at`].
    pub fn current_requests(&mut self) -> (n: usize)
        ensures
            exists|now: nat| {
                let kept = drop_older(old(self).times(), #[trigger] window_start(now, old(self).window()));
                &&& n == kept.len()
                &&& final(self).times() == kept
            },
            final(self).max() == old(self).max(),
            final(self).window() == old(self).window(),
    {
        let now = Instant::now();
        self.current_requests_at(now)
    }
}

/// Forgetting old requests twice at the same time forgets nothing more than
/// once: reading the current count at time `now` does not change how the next
/// request at `now` is decided.
pub proof fn law_count_then_decide(times: Seq<nat>, window_secs: nat, now: nat)
    ensures
        drop_older(drop_older(times, window_start(now, window_secs)), window_start(now, window_secs))
            == drop_older(times, window_start(now, window_secs)),
    decreases times.len(),
{
    let c = window_start(now, window_secs);
    if times.len() > 0 && times[0] < c {
        law_count_then_decide(times.drop_first(), window_secs, now);
    }
}

/// One request at time `now` to a limiter that has counted `times`: the
/// times it counts afterwards and whether the request was let through.
pub open spec fn sliding_step(times: Seq<nat>, max: nat, window_secs: nat, now: nat) -> (Seq<nat>, bool) {
    let kept = drop_older(times, window_start(now, window_secs));
    if kept.len() < max {
        (kept.push(now), true)
    } else {
        (kept, false)
    }
}

/// Requests at the times `nows`, in turn, to a limiter that has counted
/// `times`: the times counted at the end and the decision on each request.
pub open spec fn sliding_run(times: Seq<nat>, max: nat, window_secs: nat, nows: Seq<nat>) -> (Seq<nat>, Seq<bool>)
    decreases nows.len(),
{
    if nows.len() == 0 {
        (times, Seq::empty())
    } else {
        let (before, decided) = sliding_run(times, max, window_secs, nows.drop_last());
        let (after, allowed) = sliding_step(before, max, window_secs, nows.last());
        (after, decided.push(allowed))
    }
}

/// The window starts no later for an earlier request.
proof fn lemma_window_start_monotone(a: nat, b: nat, window_secs: nat)
    requires
        a <= b,
    ensures
        window_start(a, window_secs) <= window_start(b, window_secs),
{
}

/// Within one window, a fresh limiter lets through exactly the first
/// `max_requests` requests and refuses every later one: for request times in
/// arrival order whose first lies inside the window of the last, the `i`-th
/// request is allowed exactly when `i < max`, and the limiter then counts the
/// first `min(n, max)` of them.
pub proof fn law_window_lets_through_max(max: nat, window_secs: nat, nows: Seq<nat>)
    requires
        forall|i: int, j: int| 0 <= i <= j < nows.len() ==> nows[i] <= nows[j],
        nows.len() > 0 ==> window_start(nows.last(), window_secs) <= nows[0],
    ensures
        ({
            let (times, decided) = sliding_run(Seq::empty(), max, window_secs, nows);
            &&& decided.len() == nows.len()
            &&& forall|i: int| 0 <= i < nows.len() ==> #[trigger] decided[i] == (i < max)
            &&& times == nows.take(if nows.len() < max { nows.len() as int } else { max as int })
        }),
    decreases nows.len(),
{
    if nows.len() > 0 {
        let prefix = nows.drop_last();
        if prefix.len() > 0 {
            lemma_window_start_monotone(prefix.last(), nows.last(), window_secs);
        }
        law_window_lets_through_max(max, window_secs, prefix);
        let (before, decided) = sliding_run(Seq::empty(), max, window_secs, prefix);
        let k: int = if prefix.len() < max { prefix.len() as int } else { max as int };
        assert(before == prefix.take(k));
        let now = nows.last();
        let c = window_start(now, window_secs);
        assert(drop_older(before, c) == before) by {
            if before.len() > 0 {
                assert(before[0] == nows[0]);
            }
        }
        if k < max {
            assert(before.push(now) =~= nows.take(k + 1));
        } else {
            assert(before =~= nows.take(k));
        }
        let (after, allowed) = sliding_step(before, max, window_secs, now);
        assert(decided.push(allowed)[prefix.len() as int] == (prefix.len() < max));
        assert forall|i: int| 0 <= i < nows.len() implies #[trigger] decided.push(allowed)[i] == (i < max) by {
            if i < prefix.len() {
                assert(decided.push(allowed)[i] == decided[i]);
            }
        }
    }
}

/// The description of a window of `secs` seconds in an error message: whole
/// minutes from a minute up, else seconds.
pub open spec fn window_text(secs: nat) -> Seq<char> {
    if secs >= 60 {
        decimal_text(secs / 60) + " minute(s)"@
    } else {
        decimal_text(secs) + " second(s)"@
    }
}

/// The message of a request refused by the sliding window middleware.
pub open spec fn sliding_window_refusal(max: nat, secs: nat, client_id: Seq<char>) -> Seq<char> {
    "Rate limit exceeded: "@ + decimal_text(max) + " requests per "@ + window_text(secs)
        + " for client: "@ + client_id
}

/// The client a request is counted against: the extracted identity, or
/// `global` where none was extracted.
pub open spec fn client_key(extracted: Option<Seq<char>>) -> Seq<char> {
    match extracted {
        Some(id) => id,
        None => "global"@,
    }
}

/// Rate limiting middleware with a sliding window per client.
#[derive(Debug)]
pub struct SlidingWindowRateLimitingMiddleware {
    max_requests: usize,
    window_seconds: u64,
    limiters: StrMap<SlidingWindowRateLimiter>,
}

impl SlidingWindowRateLimitingMiddleware {
    /// The largest number of requests per window and client.
    pub closed spec fn max(&self) -> nat {
        self.max_requests as nat
    }

    /// The window length in seconds.
    pub closed spec fn window(&self) -> nat {
        self.window_seconds as nat
    }

    /// The request times counted per client.
    pub closed spec fn windows(&self) -> Map<Seq<char>, Seq<nat>> {
        self.limiters@.map_values(|l: SlidingWindowRateLimiter| l.times())
    }

    #[verifier::type_invariant]
    spec fn uniform(&self) -> bool {
        forall|k: Seq<char>| #[trigger] self.limiters@.dom().contains(k) ==> self.limiters@[k].max()
            == self.max_requests && self.limiters@[k].window() == self.window_seconds
    }

    /// Creates a middleware that lets through `max_requests` requests per
    /// `window_seconds` seconds for each client.
    pub fn new(max_requests: usize, window_seconds: u64) -> (m: Self)
        ensures
            m.max() == max_requests,
            m.window() == window_seconds,
            m.windows() == Map::<Seq<char>, Seq<nat>>::empty(),
    {
        let m = SlidingWindowRateLimitingMiddleware { max_requests, window_seconds, limiters: StrMap::new() };
        assert(m.windows() =~= Map::<Seq<char>, Seq<nat>>::empty());
        m
    }

    /// Creates a middleware with a window of `window_minutes` minutes.
    pub fn per_minute(max_requests: usize, window_minutes: u64) -> (m: Self)
        requires
            window_minutes * 60 <= u64::MAX,
        ensures
            m.max() == max_requests,
            m.window() == window_minutes * 60,
            m.windows() == Map::<Seq<char>, Seq<nat>>::empty(),
    {
        Self::new(max_requests, window_minutes * 60)
    }

    /// The client a request is counted against, given the identity that the
    /// extractor found in it.
    pub fn get_client_identifier(extracted: Option<String>) -> (id: String)
        ensures
            id@ == client_key(match extracted {
                Some(s) => Some(s@),
                None => None,
            }),
    {
        match extracted {
            Some(id) => id,
            None => "global".to_string(),
        }
    }

    /// Counts a request of `client_id` at time `now` against that client's
    /// window, creating the window on the client's first request.
    pub fn is_request_allowed_at(&mut self, client_id: &str, now: Instant) -> (allowed: bool)
        ensures
            ({
                let before = if old(self).windows().dom().contains(client_id@) {
                    old(self).windows()[client_id@]
                } else {
                    Seq::<nat>::empty()
                };
                let kept = drop_older(before, window_start(now@, old(self).window()));
                &&& allowed == (kept.len() < old(self).max())
                &&& final(self).windows() == old(self).windows().insert(
                    client_id@,
                    if allowed { kept.push(now@) } else { kept },
                )
            }),
            final(self).max() == old(self).max(),
            final(self).window() == old(self).window(),
    {
        proof {
            use_type_invariant(&*self);
        }
        let mut limiters: StrMap<SlidingWindowRateLimiter> = StrMap::new();
        std::mem::swap(&mut limiters, &mut self.limiters);
        let mut limiter = match limiters.remove(client_id) {
            Some(l) => l,
            None => SlidingWindowRateLimiter::new(self.max_requests, self.window_seconds),
        };
        let allowed = limiter.is_allowed_at(now);
        limiters.insert(client_id.to_string(), limiter);
        self.limiters = limiters;
        proof {
            assert(self.windows() =~= old(self).windows().insert(
                client_id@,
                self.limiters@[client_id@].times(),
            ));
        }
        allowed
    }

    /// Counts a request of `client_id` by the clock; see
    /// [`Self::is_request_allowed_at`].
    pub fn is_request_allowed(&mut self, client_id: &str) -> (allowed: bool)
        ensures
            final(self).max() == old(self).max(),
            final(self).window() == old(self).window(),
            final(self).windows().dom() == old(self).windows().dom().insert(client_id@),
    {
        let allowed = self.is_request_allowed_at(client_id, Instant::now());
        proof {
            assert(self.windows().dom() =~= old(self).windows().dom().insert(client_id@));
        }
        allowed
    }

    /// Decides at time `now` on a request whose client identity the extractor
    /// found to be `extracted`: continue where the client's window has room,
    /// else refuse with a rate limit error that names the limit, the window
    /// and the client.
    pub fn on_request_at(&mut self, extracted: Option<String>, now: Instant) -> (r: Result<
        MiddlewareDecision,
        McpError,
    >)
        ensures
            ({
                let id = client_key(match extracted {
                    Some(s) => Some(s@),
                    None => None,
                });
                let before = if old(self).windows().dom().contains(id) {
                    old(self).windows()[id]
                } else {
                    Seq::<nat>::empty()
                };
                let kept = drop_older(before, window_start(now@, old(self).window()));
                let allowed = kept.len() < old(self).max();
                &&& final(self).windows() == old(self).windows().insert(
                    id,
                    if allowed { kept.push(now@) } else { kept },
                )
                &&& allowed ==> r == Ok::<MiddlewareDecision, McpError>(MiddlewareDecision::Continue)
                &&& !allowed ==> (r matches Err(e) && e.code == McpErrorCode::Custom(RATE_LIMIT_ERROR_CODE)
                    && e.message@ == sliding_window_refusal(old(self).max(), old(self).window(), id))
            }),
            final(self).max() == old(self).max(),
            final(self).window() == old(self).window(),
    {
        let client_id = Self::get_client_identifier(extracted);
        let allowed = self.is_request_allowed_at(client_id.as_str(), now);
        if allowed {
            Ok(MiddlewareDecision::Continue)
        } else {
            let mut msg = "Rate limit exceeded: ".to_string();
            msg.append(usize_to_decimal(self.max_requests).as_str());
            msg.append(" requests per ");
            if self.window_seconds >= 60 {
                msg.append(u64_to_decimal(self.window_seconds / 60).as_str());
                msg.append(" minute(s)");
            } else {
                msg.append(u64_to_decimal(self.window_seconds).as_str());
                msg.append(" second(s)");
            }
            msg.append(" for client: ");
            msg.append(client_id.as_str());
            Err(rate_limit_error(msg))
        }
    }

    /// Decides on a request by the clock: the decision of
    /// [`Self::on_request_at`] at the instant the clock gives.
    pub fn on_request(&mut self, extracted: Option<String>) -> (r: Result<MiddlewareDecision, McpError>)
        ensures
            exists|now: nat| #[trigger] sliding_outcome(*old(self), *final(self), opt_text(extracted), now, r),
    {
        let ghost ext = opt_text(extracted);
        let now = Instant::now();
        let r = self.on_request_at(extracted, now);
        assert(sliding_outcome(*old(self), *self, ext, now@, r));
        r
    }
}

/// Whether the middleware `before` becomes `after` and answers `r` on a
/// request at time `now` whose client identity the extractor found to be
/// `extracted`: the client's window keeps the times within the window before
/// `now`, and the request is let through, and counted, where fewer than the
/// limit remain; else it is refused with a rate limit error that names the
/// limit, the window and the client.
pub open spec fn sliding_outcome(
    before: SlidingWindowRateLimitingMiddleware,
    after: SlidingWindowRateLimitingMiddleware,
    extracted: Option<Seq<char>>,
    now: nat,
    r: Result<MiddlewareDecision, McpError>,
) -> bool {
    let id = client_key(extracted);
    let old_times = if before.windows().dom().contains(id) {
        before.windows()[id]
    } else {
        Seq::<nat>::empty()
    };
    let kept = drop_older(old_times, window_start(now, before.window()));
    let allowed = kept.len() < before.max();
    &&& after.windows() == before.windows().insert(id, if allowed { kept.push(now) } else { kept })
    &&& after.max() == before.max()
    &&& after.window() == before.window()
    &&& allowed ==> r == Ok::<MiddlewareDecision, McpError>(MiddlewareDecision::Continue)
    &&& !allowed ==> (r matches Err(e) && e.code == McpErrorCode::Custom(RATE_LIMIT_ERROR_CODE)
        && e.message@ == sliding_window_refusal(before.max(), before.window(), id))
}

/// The message of a request refused by a token bucket limiter: one text for
/// the shared global bucket, another naming the client.
pub open spec fn token_bucket_refusal(global: bool, client_id: Seq<char>) -> Seq<char> {
    if global {
        "Global rate limit exceeded"@
    } else {
        "Rate limit exceeded for client: "@ + client_id
    }
}

/// The error for a request refused by a token bucket limiter.
pub fn token_bucket_denial(global: bool, client_id: &str) -> (e: McpError)
    ensures
        e.code == McpErrorCode::Custom(RATE_LIMIT_ERROR_CODE),
        e.message@ == token_bucket_refusal(global, client_id@),
{
    if global {
        rate_limit_error("Global rate limit exceeded".to_string())
    } else {
        let mut msg = "Rate limit exceeded for client: ".to_string();
        msg.append(client_id);
        rate_limit_error(msg)
    }
}

} // verus!
