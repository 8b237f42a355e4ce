//! Rate limiters, one state per client address, backed by `governor`.
use governor::{clock::DefaultClock, state::keyed::DefaultKeyedStateStore, Quota, RateLimiter};
use std::num::NonZeroU32;
use vstd::prelude::*;

verus! {

/// A client's address: the version of the protocol, 4 or 6, and the address bits.
pub type ClientIp = (u8, u128);

/// A limiter of `governor` with a state for each client address. `RateLimiter` is
/// bounded by traits of its crate, so it is held here out of sight.
#[verifier::external_body]
pub struct KeyedLimiter {
    inner: RateLimiter<ClientIp, DefaultKeyedStateStore<ClientIp>, DefaultClock>,
}

/// What a limiter was made with: how many requests of one client may come at
/// once, and after how many nanoseconds one more is allowed.
pub uninterp spec fn quota(limiter: KeyedLimiter) -> (nat, nat);

/// The theoretical arrival times that a limiter keeps, in nanoseconds since it was
/// made: for each client that it has let pass before, when the client's next
/// request would be due if all came one interval apart.
pub uninterp spec fn arrivals(limiter: KeyedLimiter) -> Map<ClientIp, nat>;

/// The arrival times of a limiter that has not been asked yet.
pub open spec fn no_arrivals() -> Map<ClientIp, nat> {
    Map::empty()
}

/// When a request of `ip` that comes at `t` is due.
pub open spec fn due(quota: (nat, nat), before: Map<ClientIp, nat>, ip: ClientIp, t: nat) -> nat {
    if before.contains_key(ip) {
        before[ip]
    } else {
        t + quota.1
    }
}

/// Whether a request of `ip` that comes at `t` is let pass: it comes at most a
/// whole burst of intervals before it is due.
pub open spec fn admits(
    quota: (nat, nat),
    before: Map<ClientIp, nat>,
    ip: ClientIp,
    t: nat,
) -> bool {
    due(quota, before, ip, t) <= t + quota.0 * quota.1
}

/// The arrival times after a request of `ip` at `t`: one that is let pass makes the
/// next due an interval later, one that is refused changes nothing.
pub open spec fn arrivals_after(
    quota: (nat, nat),
    before: Map<ClientIp, nat>,
    ip: ClientIp,
    t: nat,
) -> Map<ClientIp, nat> {
    if admits(quota, before, ip, t) {
        let d = due(quota, before, ip, t);
        before.insert(
            ip,
            (if d >= t {
                d
            } else {
                t
            }) + quota.1,
        )
    } else {
        before
    }
}

/// A check of `ip` made when the limiter's clock showed `t`: its answer, and what
/// it leaves behind.
pub open spec fn checked(
    quota: (nat, nat),
    before: Map<ClientIp, nat>,
    ip: ClientIp,
    t: nat,
    passes: bool,
    after: Map<ClientIp, nat>,
) -> bool {
    &&& passes == admits(quota, before, ip, t)
    &&& after == arrivals_after(quota, before, ip, t)
}

/// `RateLimiter::keyed` with `Quota::per_second` and `Quota::allow_burst`: no
/// client is known yet, `burst` requests may come at once, and the second is
/// shared out evenly among `rate` requests.
#[verifier::external_body]
fn limit_per_second(rate: u32, burst: u32) -> (r: KeyedLimiter)
    requires
        0 < rate <= 1_000_000_000,
        burst > 0,
    ensures
        quota(r) == (burst as nat, 1_000_000_000nat / (rate as nat)),
        arrivals(r) == no_arrivals(),
{
    let rate = NonZeroU32::new(rate).unwrap();
    let burst = NonZeroU32::new(burst).unwrap();
    KeyedLimiter { inner: RateLimiter::keyed(Quota::per_second(rate).allow_burst(burst)) }
}

/// `RateLimiter::keyed` with `Quota::per_minute`: no client is known yet, `rate`
/// requests may come at once, and the minute is shared out evenly among them.
#[verifier::external_body]
fn limit_per_minute(rate: u32) -> (r: KeyedLimiter)
    requires
        rate > 0,
    ensures
        quota(r) == (rate as nat, 60_000_000_000nat / (rate as nat)),
        arrivals(r) == no_arrivals(),
{
    let rate = NonZeroU32::new(rate).unwrap();
    KeyedLimiter { inner: RateLimiter::keyed(Quota::per_minute(rate)) }
}

impl KeyedLimiter {
    /// `RateLimiter::check_key`. The clock is read once, and the reading, the quota
    /// and the client's arrival time decide the answer and the new arrival time. A
    /// client that has not been let pass before is let pass, whatever the clock
    /// shows. Nothing is said of what the clock shows: its readings need not even
    /// be in order. The times are counted in 64 bits, which last for 584 years.
    #[verifier::external_body]
    pub(crate) fn check_key(&mut self, ip: ClientIp) -> (r: bool)
        ensures
            quota(*final(self)) == quota(*old(self)),
            exists|t: nat| #[trigger]
                checked(
                    quota(*old(self)),
                    arrivals(*old(self)),
                    ip,
                    t,
                    r,
                    arrivals(*final(self)),
                ),
            !arrivals(*old(self)).contains_key(ip) ==> r,
    {
        self.inner.check_key(&ip).is_ok()
    }
}

/// 10 room creations per IP per minute: of those that come at one instant, the first
/// 10 are let pass.
pub fn room_creation_limiter() -> (r: KeyedLimiter)
    ensures
        quota(r) == (10nat, 6_000_000_000nat),
        arrivals(r) == no_arrivals(),
        forall|ip: ClientIp, t: nat, n: nat, i: int|
            0 <= i < n ==> #[trigger] answers(quota(r), arrivals(r), ip, at_once(t, n))[i] == (i
                < 10),
{
    let r = limit_per_minute(10);
    proof {
        assert forall|ip: ClientIp, t: nat, n: nat, i: int| 0 <= i < n implies #[trigger] answers(
            quota(r),
            arrivals(r),
            ip,
            at_once(t, n),
        )[i] == (i < 10) by {
            law_burst_at_one_instant(quota(r), arrivals(r), ip, t, n);
        }
    }
    r
}

/// 5 join attempts per IP per second: of those that come at one instant, the first 5
/// are let pass.
pub fn join_attempt_limiter() -> (r: KeyedLimiter)
    ensures
        quota(r) == (5nat, 200_000_000nat),
        arrivals(r) == no_arrivals(),
        forall|ip: ClientIp, t: nat, n: nat, i: int|
            0 <= i < n ==> #[trigger] answers(quota(r), arrivals(r), ip, at_once(t, n))[i] == (i
                < 5),
{
    let r = limit_per_second(5, 5);
    proof {
        assert forall|ip: ClientIp, t: nat, n: nat, i: int| 0 <= i < n implies #[trigger] answers(
            quota(r),
            arrivals(r),
            ip,
            at_once(t, n),
        )[i] == (i < 5) by {
            law_burst_at_one_instant(quota(r), arrivals(r), ip, t, n);
        }
    }
    r
}

/// Peer-poll rate limit.
///
/// The host polls every 3 s while waiting for joiners. 2/s steady state with a
/// burst of 5 is comfortably above the 0.33/s that the host produces, while still
/// rejecting a flood: a client that polls every 3 s is never refused, and of polls
/// that come at one instant the first 5 are let pass.
pub fn poll_limiter() -> (r: KeyedLimiter)
    ensures
        quota(r) == (5nat, 500_000_000nat),
        arrivals(r) == no_arrivals(),
        forall|ip: ClientIp, t: nat, n: nat, i: int|
            0 <= i < n ==> #[trigger] answers(quota(r), arrivals(r), ip, at_once(t, n))[i] == (i
                < 5),
        forall|ip: ClientIp, times: Seq<nat>|
            paced(times, 3_000_000_000) ==> #[trigger] answers(quota(r), arrivals(r), ip, times)
                == Seq::new(times.len(), |i: int| true),
{
    let r = limit_per_second(2, 5);
    proof {
        assert forall|ip: ClientIp, t: nat, n: nat, i: int| 0 <= i < n implies #[trigger] answers(
            quota(r),
            arrivals(r),
            ip,
            at_once(t, n),
        )[i] == (i < 5) by {
            law_burst_at_one_instant(quota(r), arrivals(r), ip, t, n);
        }
        assert forall|ip: ClientIp, times: Seq<nat>| paced(
            times,
            3_000_000_000,
        ) implies #[trigger] answers(quota(r), arrivals(r), ip, times) == Seq::new(
            times.len(),
            |i: int| true,
        ) by {
            assert(paced(times, quota(r).1)) by {
                assert forall|i: int| 0 < i < times.len() implies times[i - 1] + quota(r).1
                    <= #[trigger] times[i] by {}
            }
            law_paced_client_is_never_refused(quota(r), arrivals(r), ip, times);
        }
    }
    r
}

// ── What a limiter's answers come to ─────────────────────────────────────────

/// The answers to checks of `ip` that are made at `times`, in turn.
pub open spec fn answers(
    quota: (nat, nat),
    before: Map<ClientIp, nat>,
    ip: ClientIp,
    times: Seq<nat>,
) -> Seq<bool>
    decreases times.len(),
{
    if times.len() == 0 {
        Seq::empty()
    } else {
        seq![admits(quota, before, ip, times[0])] + answers(
            quota,
            arrivals_after(quota, before, ip, times[0]),
            ip,
            times.drop_first(),
        )
    }
}

/// `n` checks at one instant.
pub open spec fn at_once(t: nat, n: nat) -> Seq<nat> {
    Seq::new(n, |i: int| t)
}

/// At one instant, where the next request is due `k + 1` intervals ahead, just the
/// rest of the burst is let pass.
proof fn lemma_rest_of_burst(
    quota: (nat, nat),
    before: Map<ClientIp, nat>,
    ip: ClientIp,
    t: nat,
    k: nat,
    n: nat,
)
    requires
        quota.1 > 0,
        k <= quota.0,
        due(quota, before, ip, t) == t + (k + 1) * quota.1,
    ensures
        answers(quota, before, ip, at_once(t, n)).len() == n,
        forall|i: int|
            0 <= i < n ==> #[trigger] answers(quota, before, ip, at_once(t, n))[i] == (k + i
                < quota.0),
    decreases n,
{
    if n > 0 {
        let rest = (n - 1) as nat;
        let b = quota.0 as int;
        let w = quota.1 as int;
        let after = arrivals_after(quota, before, ip, t);
        assert(at_once(t, n).drop_first() =~= at_once(t, rest));
        assert(admits(quota, before, ip, t) == (k < b)) by {
            assert(k < b ==> (k + 1) * w <= b * w) by (nonlinear_arith)
                requires
                    w > 0,
            ;
            assert(k >= b ==> (k + 1) * w > b * w) by (nonlinear_arith)
                requires
                    w > 0,
            ;
        }
        if k < b {
            assert((k + 1) * w >= 0) by (nonlinear_arith)
                requires
                    w > 0,
            ;
            assert((k + 2) * w == (k + 1) * w + w) by (nonlinear_arith);
            lemma_rest_of_burst(quota, after, ip, t, k + 1, rest);
        } else {
            lemma_rest_of_burst(quota, after, ip, t, k, rest);
        }
        let tail = answers(quota, after, ip, at_once(t, rest));
        let all = answers(quota, before, ip, at_once(t, n));
        assert(all == seq![k < b] + tail);
        assert forall|i: int| 0 <= i < n implies #[trigger] all[i] == (k + i < b) by {
            if i > 0 {
                assert(all[i] == tail[i - 1]);
            }
        }
    }
}

/// Of requests that a new client makes at one instant, just the first burst is let
/// pass.
pub proof fn law_burst_at_one_instant(
    quota: (nat, nat),
    before: Map<ClientIp, nat>,
    ip: ClientIp,
    t: nat,
    n: nat,
)
    requires
        quota.1 > 0,
        !before.contains_key(ip),
    ensures
        answers(quota, before, ip, at_once(t, n)).len() == n,
        forall|i: int|
            0 <= i < n ==> #[trigger] answers(quota, before, ip, at_once(t, n))[i] == (i
                < quota.0),
{
    assert(1 * quota.1 == quota.1);
    lemma_rest_of_burst(quota, before, ip, t, 0, n);
}

/// The arrival times after checks of `ip` at `times`, in turn.
pub open spec fn arrivals_after_all(
    quota: (nat, nat),
    before: Map<ClientIp, nat>,
    ip: ClientIp,
    times: Seq<nat>,
) -> Map<ClientIp, nat>
    decreases times.len(),
{
    if times.len() == 0 {
        before
    } else {
        arrivals_after_all(
            quota,
            arrivals_after(quota, before, ip, times[0]),
            ip,
            times.drop_first(),
        )
    }
}

/// Where the next request is due `k + 1` intervals ahead, using up the rest of the
/// burst leaves it due a whole burst and one interval ahead.
proof fn lemma_burst_used_up(
    quota: (nat, nat),
    before: Map<ClientIp, nat>,
    ip: ClientIp,
    t: nat,
    k: nat,
)
    requires
        quota.1 > 0,
        k < quota.0,
        due(quota, before, ip, t) == t + (k + 1) * quota.1,
    ensures
        ({
            let after = arrivals_after_all(
                quota,
                before,
                ip,
                at_once(t, (quota.0 - k) as nat),
            );
            after.contains_key(ip) && after[ip] == t + (quota.0 + 1) * quota.1
        }),
    decreases quota.0 - k,
{
    let b = quota.0 as int;
    let w = quota.1 as int;
    let n = (b - k) as nat;
    let after = arrivals_after(quota, before, ip, t);
    assert(at_once(t, n).drop_first() =~= at_once(t, (n - 1) as nat));
    assert((k + 1) * w <= b * w) by (nonlinear_arith)
        requires
            w > 0,
            k < b,
    ;
    assert((k + 1) * w >= 0) by (nonlinear_arith)
        requires
            w > 0,
    ;
    assert((k + 2) * w == (k + 1) * w + w) by (nonlinear_arith);
    assert(after[ip] == t + (k + 2) * w);
    assert(arrivals_after_all(quota, before, ip, at_once(t, n)) == arrivals_after_all(
        quota,
        after,
        ip,
        at_once(t, (n - 1) as nat),
    ));
    if k + 1 < b {
        lemma_burst_used_up(quota, after, ip, t, k + 1);
    }
}

/// A client that has used up its burst at one instant is let pass again just once
/// for every interval that it then waits, up to the whole burst.
pub proof fn law_waiting_restores_the_burst(
    quota: (nat, nat),
    before: Map<ClientIp, nat>,
    ip: ClientIp,
    t: nat,
    k: nat,
    n: nat,
)
    requires
        quota.1 > 0,
        0 < quota.0,
        k <= quota.0,
        !before.contains_key(ip),
    ensures
        ({
            let used_up = arrivals_after_all(quota, before, ip, at_once(t, quota.0));
            let later = answers(quota, used_up, ip, at_once(t + k * quota.1, n));
            later.len() == n && forall|i: int| 0 <= i < n ==> #[trigger] later[i] == (i < k)
        }),
{
    let b = quota.0 as int;
    let w = quota.1 as int;
    assert(1 * w == w);
    lemma_burst_used_up(quota, before, ip, t, 0);
    let used_up = arrivals_after_all(quota, before, ip, at_once(t, quota.0));
    let j = (b - k) as nat;
    assert((b + 1) * w == k * w + (j + 1) * w) by (nonlinear_arith)
        requires
            j == b - k,
    ;
    lemma_rest_of_burst(quota, used_up, ip, t + k * quota.1, j, n);
    let later = answers(quota, used_up, ip, at_once(t + k * quota.1, n));
    assert forall|i: int| 0 <= i < n implies #[trigger] later[i] == (i < k) by {}
}

/// Whether the readings of a clock are in order.
pub open spec fn in_order(times: Seq<nat>) -> bool {
    forall|i: int, j: int| 0 <= i <= j < times.len() ==> times[i] <= times[j]
}

/// Where the next request is due at most `k + 1` intervals behind a moment, checks
/// from then on let the rest of the burst pass.
proof fn lemma_burst_in_order(
    quota: (nat, nat),
    before: Map<ClientIp, nat>,
    ip: ClientIp,
    last: nat,
    k: nat,
    times: Seq<nat>,
)
    requires
        in_order(times),
        times.len() > 0 ==> last <= times[0],
        before.contains_key(ip) ==> before[ip] <= last + (k + 1) * quota.1,
    ensures
        answers(quota, before, ip, times).len() == times.len(),
        forall|i: int|
            0 <= i < times.len() && k + i < quota.0 ==> #[trigger] answers(
                quota,
                before,
                ip,
                times,
            )[i],
    decreases times.len(),
{
    if times.len() > 0 {
        let t = times[0];
        let b = quota.0 as int;
        let w = quota.1 as int;
        let after = arrivals_after(quota, before, ip, t);
        let rest = times.drop_first();
        assert((k + 1) * w >= w) by (nonlinear_arith)
            requires
                w >= 0,
                k >= 0,
        ;
        assert((k + 2) * w == (k + 1) * w + w) by (nonlinear_arith);
        assert(k < b ==> (k + 1) * w <= b * w) by (nonlinear_arith)
            requires
                w >= 0,
        ;
        assert(due(quota, before, ip, t) <= t + (k + 1) * w);
        lemma_burst_in_order(quota, after, ip, t, k + 1, rest);
        let tail = answers(quota, after, ip, rest);
        let all = answers(quota, before, ip, times);
        assert(all == seq![admits(quota, before, ip, t)] + tail);
        assert forall|i: int| 0 <= i < times.len() && k + i < b implies #[trigger] all[i] by {
            if i > 0 {
                assert(all[i] == tail[i - 1]);
            }
        }
    }
}

/// A new client's first burst of requests is let pass whenever they come, as long as
/// the clock does not go back.
pub proof fn law_first_burst_passes(
    quota: (nat, nat),
    before: Map<ClientIp, nat>,
    ip: ClientIp,
    times: Seq<nat>,
)
    requires
        !before.contains_key(ip),
        in_order(times),
    ensures
        answers(quota, before, ip, times).len() == times.len(),
        forall|i: int|
            0 <= i < times.len() && i < quota.0 ==> #[trigger] answers(quota, before, ip, times)[i],
{
    lemma_burst_in_order(quota, before, ip, 0, 0, times);
}

/// Whether each of the times is at least `gap` behind the one before.
pub open spec fn paced(times: Seq<nat>, gap: nat) -> bool {
    forall|i: int| 0 < i < times.len() ==> times[i - 1] + gap <= #[trigger] times[i]
}

proof fn lemma_paced_passes(
    quota: (nat, nat),
    before: Map<ClientIp, nat>,
    ip: ClientIp,
    times: Seq<nat>,
)
    requires
        quota.0 > 0,
        paced(times, quota.1),
        times.len() > 0 && before.contains_key(ip) ==> before[ip] <= times[0] + quota.1,
    ensures
        answers(quota, before, ip, times) == Seq::new(times.len(), |i: int| true),
    decreases times.len(),
{
    if times.len() > 0 {
        let t = times[0];
        let after = arrivals_after(quota, before, ip, t);
        let rest = times.drop_first();
        let b = quota.0 as int;
        let w = quota.1 as int;
        assert(b * w >= w) by (nonlinear_arith)
            requires
                b >= 1,
                w >= 0,
        ;
        assert forall|i: int| 0 < i < rest.len() implies rest[i - 1] + quota.1
            <= #[trigger] rest[i] by {
            assert(rest[i] == times[i + 1]);
        }
        if rest.len() > 0 {
            assert(times[1] == rest[0]);
        }
        lemma_paced_passes(quota, after, ip, rest);
        assert(answers(quota, before, ip, times) =~= Seq::new(times.len(), |i: int| true));
    } else {
        assert(answers(quota, before, ip, times) =~= Seq::new(times.len(), |i: int| true));
    }
}

/// A client that leaves at least an interval between its requests is never refused.
pub proof fn law_paced_client_is_never_refused(
    quota: (nat, nat),
    before: Map<ClientIp, nat>,
    ip: ClientIp,
    times: Seq<nat>,
)
    requires
        quota.0 > 0,
        !before.contains_key(ip),
        paced(times, quota.1),
    ensures
        answers(quota, before, ip, times) == Seq::new(times.len(), |i: int| true),
{
    lemma_paced_passes(quota, before, ip, times);
}

/// Clients are counted apart: a check of one leaves the answer to any other as it was.
pub proof fn law_clients_are_counted_apart(
    quota: (nat, nat),
    before: Map<ClientIp, nat>,
    ip: ClientIp,
    t: nat,
    other: ClientIp,
    times: Seq<nat>,
)
    requires
        ip != other,
    ensures
        answers(quota, arrivals_after(quota, before, ip, t), other, times) == answers(
            quota,
            before,
            other,
            times,
        ),
{
    lemma_answers_rest_on_own_arrival(
        quota,
        arrivals_after(quota, before, ip, t),
        before,
        other,
        times,
    );
}

proof fn lemma_answers_rest_on_own_arrival(
    quota: (nat, nat),
    a: Map<ClientIp, nat>,
    b: Map<ClientIp, nat>,
    ip: ClientIp,
    times: Seq<nat>,
)
    requires
        a.contains_key(ip) == b.contains_key(ip),
        a.contains_key(ip) ==> a[ip] == b[ip],
    ensures
        answers(quota, a, ip, times) == answers(quota, b, ip, times),
    decreases times.len(),
{
    if times.len() > 0 {
        lemma_answers_rest_on_own_arrival(
            quota,
            arrivals_after(quota, a, ip, times[0]),
            arrivals_after(quota, b, ip, times[0]),
            ip,
            times.drop_first(),
        );
    }
}

} // verus!
